//! What holds of the records of every transaction.

use vstd::prelude::*;
use crate::status::{effect_ids, status_among, EffectIds};
use crate::transition::{
    awaits_package, cache_after, checkpoint_outcome, deleted_step, deletion, drained,
    index_failure, index_of, input_step, lemma_sequenced_next, lemma_sequenced_stops, lookup,
    matches_filter, missing_packages, observed, output_step, owner_changed, sequenced, skipped,
    stamp_of, transaction_index, transaction_outcome, transaction_steps, transfer_in,
    transfer_out, with_awaited, Outcome, PriorView, Provenance,
};
use crate::types::{
    CheckpointData, CheckpointTransaction, EntryView, FilterView, ObjectRef, ObjectSnapshot,
    ObjectStatus, OwnershipError,
};

verus! {

/// The records with a given status.
pub open spec fn has_status(status: ObjectStatus) -> spec_fn(EntryView) -> bool {
    |entry: EntryView| entry.object_status == status
}

/// The output objects that match the filter and whose owner is not the one
/// that the index knows.
pub open spec fn changes_owner(
    filter: FilterView,
    cache: Map<Seq<char>, Seq<char>>,
    index: Seq<PriorView>,
) -> spec_fn(ObjectSnapshot) -> bool {
    |object: ObjectSnapshot|
        matches_filter(filter, cache, object) && owner_changed(
            lookup(index, object.object_id@),
            object,
        )
}

/// Where the whole did not fail, no part of it did.
pub proof fn lemma_prefix_succeeds(steps: Seq<Outcome>, n: int)
    requires
        sequenced(steps).error is None,
        0 <= n <= steps.len(),
    ensures
        sequenced(steps.take(n)).error is None,
        n < steps.len() ==> steps[n].error is None,
{
    if sequenced(steps.take(n)).error is Some {
        lemma_sequenced_stops(steps, n);
    }
    if n < steps.len() {
        if sequenced(steps.take(n + 1)).error is Some {
            lemma_sequenced_stops(steps, n + 1);
        }
        lemma_sequenced_next(steps, n);
    }
}

/// What holds of every record of every step holds of every record of the
/// whole.
pub proof fn lemma_sequenced_all(steps: Seq<Outcome>, holds: spec_fn(EntryView) -> bool)
    requires
        forall|i: int, k: int|
            0 <= i < steps.len() && 0 <= k < steps[i].entries.len() ==> holds(
                #[trigger] steps[i].entries[k],
            ),
    ensures
        forall|k: int|
            0 <= k < sequenced(steps).entries.len() ==> holds(
                #[trigger] sequenced(steps).entries[k],
            ),
    decreases steps.len(),
{
    if steps.len() > 0 {
        let front = steps.drop_last();
        assert forall|i: int, k: int|
            0 <= i < front.len() && 0 <= k < front[i].entries.len() implies holds(
            #[trigger] front[i].entries[k],
        ) by {
            assert(front[i] == steps[i]);
        }
        lemma_sequenced_all(front, holds);
        let before = sequenced(front);
        if before.error is None {
            assert forall|k: int| 0 <= k < sequenced(steps).entries.len() implies holds(
                #[trigger] sequenced(steps).entries[k],
            ) by {
                if k >= before.entries.len() {
                    assert(sequenced(steps).entries[k] == steps[steps.len() - 1].entries[k
                        - before.entries.len()]);
                }
            }
        }
    }
}

/// Every record of a transaction is consistent, whether or not the
/// transaction fails later.
pub proof fn lemma_records_consistent(
    filter: FilterView,
    cache: Map<Seq<char>, Seq<char>>,
    epoch: u128,
    checkpoint: u128,
    timestamp_ms: u128,
    transaction: CheckpointTransaction,
    k: int,
)
    requires
        0 <= k < transaction_outcome(
            filter,
            cache,
            epoch,
            checkpoint,
            timestamp_ms,
            transaction,
        ).entries.len(),
    ensures
        transaction_outcome(
            filter,
            cache,
            epoch,
            checkpoint,
            timestamp_ms,
            transaction,
        ).entries[k].consistent(),
{
    let stamp = stamp_of(epoch, checkpoint, timestamp_ms);
    let steps = transaction_steps(filter, cache, stamp, transaction);
    let holds = |entry: EntryView| entry.consistent();
    assert forall|i: int, j: int|
        0 <= i < steps.len() && 0 <= j < steps[i].entries.len() implies holds(
        #[trigger] steps[i].entries[j],
    ) by {
        lemma_step_shape(filter, cache, stamp, transaction, i);
    }
    lemma_sequenced_all(steps, holds);
    assert(holds(sequenced(steps).entries[k]));
}

/// The step at each place of a transaction.
pub proof fn lemma_step_shape(
    filter: FilterView,
    cache: Map<Seq<char>, Seq<char>>,
    stamp: Option<Provenance>,
    transaction: CheckpointTransaction,
    i: int,
)
    requires
        0 <= i < transaction_steps(filter, cache, stamp, transaction).len(),
    ensures
        transaction_steps(filter, cache, stamp, transaction).len()
            == transaction.output_objects@.len() + transaction.effects.deleted@.len(),
        i < transaction.output_objects@.len() ==> transaction_steps(
            filter,
            cache,
            stamp,
            transaction,
        )[i] == output_step(
            filter,
            cache,
            stamp,
            index_of(filter, cache, transaction.input_objects@, stamp),
            effect_ids(transaction.effects),
            transaction.output_objects@[i],
        ),
        i >= transaction.output_objects@.len() ==> transaction_steps(
            filter,
            cache,
            stamp,
            transaction,
        )[i] == deleted_step(
            stamp,
            index_of(filter, cache, transaction.input_objects@, stamp),
            transaction.digest@,
            transaction.effects.deleted@[i - transaction.output_objects@.len()],
        ),
{
}

/// The transfers among the records of the first `n` steps are as many as the
/// owner changes among the output objects that those steps cover.
proof fn lemma_transfer_count(
    filter: FilterView,
    cache: Map<Seq<char>, Seq<char>>,
    stamp: Option<Provenance>,
    transaction: CheckpointTransaction,
    status: ObjectStatus,
    n: int,
)
    requires
        status == ObjectStatus::TransferOut || status == ObjectStatus::TransferIn,
        sequenced(transaction_steps(filter, cache, stamp, transaction)).error is None,
        0 <= n <= transaction_steps(filter, cache, stamp, transaction).len(),
    ensures
        sequenced(transaction_steps(filter, cache, stamp, transaction).take(n)).entries.filter(
            has_status(status),
        ).len() == transaction.output_objects@.take(
            if n <= transaction.output_objects@.len() {
                n
            } else {
                transaction.output_objects@.len() as int
            },
        ).filter(
            changes_owner(
                filter,
                cache,
                index_of(filter, cache, transaction.input_objects@, stamp),
            ),
        ).len(),
    decreases n,
{
    broadcast use Seq::lemma_filter_push, Seq::filter_distributes_over_add;

    let steps = transaction_steps(filter, cache, stamp, transaction);
    let outputs = transaction.output_objects@;
    let index = index_of(filter, cache, transaction.input_objects@, stamp);
    let moved = changes_owner(filter, cache, index);
    let wanted = has_status(status);
    reveal(Seq::filter);
    if n == 0 {
        assert(steps.take(0) =~= Seq::<Outcome>::empty());
        assert(outputs.take(0) =~= Seq::<ObjectSnapshot>::empty());
    } else {
        lemma_transfer_count(filter, cache, stamp, transaction, status, n - 1);
        lemma_prefix_succeeds(steps, n - 1);
        lemma_sequenced_next(steps, n - 1);
        lemma_step_shape(filter, cache, stamp, transaction, n - 1);
        let before = sequenced(steps.take(n - 1)).entries;
        let step = steps[n - 1];
        assert(sequenced(steps.take(n)).entries.filter(wanted) == before.filter(wanted)
            + step.entries.filter(wanted));
        let none = Seq::<EntryView>::empty();
        if n - 1 < outputs.len() {
            let object = outputs[n - 1];
            assert(outputs.take(n) =~= outputs.take(n - 1).push(object));
            if moved(object) {
                let prior = lookup(index, object.object_id@)->0;
                let out = transfer_out(stamp->0, object, prior);
                let into = transfer_in(stamp->0, object, prior);
                assert(step.entries =~= none.push(out).push(into));
                assert(none.push(out).push(into).filter(wanted).len() == 1);
            } else {
                if step.entries.len() > 0 {
                    let status = status_among(effect_ids(transaction.effects), object.object_id@);
                    assert(step.entries =~= none.push(observed(stamp->0, object, status->0)));
                }
                assert(step.entries.filter(wanted).len() == 0);
            }
        } else {
            if step.entries.len() > 0 {
                let removed = transaction.effects.deleted@[n - 1 - outputs.len()];
                let prior = lookup(index, removed.object_id@)->0;
                assert(step.entries =~= none.push(
                    deletion(stamp->0, transaction.digest@, removed, prior),
                ));
            }
            assert(step.entries.filter(wanted).len() == 0);
        }
    }
}

/// Of a transaction that did not fail: each output object that changed owner
/// gave one transfer out and one transfer in, and nothing else gave either.
/// The transfers are twice as many as such objects.
pub proof fn lemma_transfers_come_in_pairs(
    filter: FilterView,
    cache: Map<Seq<char>, Seq<char>>,
    epoch: u128,
    checkpoint: u128,
    timestamp_ms: u128,
    transaction: CheckpointTransaction,
)
    requires
        transaction_outcome(filter, cache, epoch, checkpoint, timestamp_ms, transaction).error
            is None,
    ensures
        ({
            let entries = transaction_outcome(
                filter,
                cache,
                epoch,
                checkpoint,
                timestamp_ms,
                transaction,
            ).entries;
            let moved = transaction.output_objects@.filter(
                changes_owner(
                    filter,
                    cache,
                    transaction_index(filter, cache, epoch, checkpoint, timestamp_ms, transaction),
                ),
            ).len();
            &&& entries.filter(has_status(ObjectStatus::TransferOut)).len() == moved
            &&& entries.filter(has_status(ObjectStatus::TransferIn)).len() == moved
            &&& entries.filter(has_status(ObjectStatus::TransferOut)).len() + entries.filter(
                has_status(ObjectStatus::TransferIn),
            ).len() == 2 * moved
        }),
{
    let stamp = stamp_of(epoch, checkpoint, timestamp_ms);
    let steps = transaction_steps(filter, cache, stamp, transaction);
    let outputs = transaction.output_objects@;
    lemma_transfer_count(
        filter,
        cache,
        stamp,
        transaction,
        ObjectStatus::TransferOut,
        steps.len() as int,
    );
    lemma_transfer_count(
        filter,
        cache,
        stamp,
        transaction,
        ObjectStatus::TransferIn,
        steps.len() as int,
    );
    assert(steps.take(steps.len() as int) =~= steps);
    assert(outputs.take(outputs.len() as int) =~= outputs);
}

/// The records of one object.
pub open spec fn of_object(id: Seq<char>) -> spec_fn(EntryView) -> bool {
    |entry: EntryView| entry.object_id == id
}

/// The records that say that one object was deleted.
pub open spec fn deletion_of(id: Seq<char>) -> spec_fn(EntryView) -> bool {
    |entry: EntryView| entry.object_id == id && entry.object_status == ObjectStatus::Deleted
}

/// No two of `objects` have the same id.
pub open spec fn distinct_objects(objects: Seq<ObjectSnapshot>) -> bool {
    forall|i: int, j: int|
        0 <= i < j < objects.len() ==> objects[i].object_id@ != objects[j].object_id@
}

/// No two of `refs` name the same object.
pub open spec fn distinct_refs(refs: Seq<ObjectRef>) -> bool {
    forall|i: int, j: int| 0 <= i < j < refs.len() ==> refs[i].object_id@ != refs[j].object_id@
}

/// An output object whose one record has the status `Deleted`: it matches the
/// filter, its owner is not found changed, and `Deleted` is the status that
/// the effects give it.
pub open spec fn plainly_deleted(
    filter: FilterView,
    cache: Map<Seq<char>, Seq<char>>,
    index: Seq<PriorView>,
    effects: EffectIds,
    object: ObjectSnapshot,
) -> bool {
    matches_filter(filter, cache, object) && !owner_changed(
        lookup(index, object.object_id@),
        object,
    ) && status_among(effects, object.object_id@) == Some(ObjectStatus::Deleted)
}

/// What every record of one step is. A record of an output object has the
/// object's id and version, and the status `Deleted` only where the object is
/// plainly deleted. A record of a deleted object is the deletion of an object
/// that the index knows, with the version of the deletion.
pub proof fn lemma_step_records(
    filter: FilterView,
    cache: Map<Seq<char>, Seq<char>>,
    stamp: Option<Provenance>,
    transaction: CheckpointTransaction,
    k: int,
    m: int,
)
    requires
        0 <= k < transaction_steps(filter, cache, stamp, transaction).len(),
        0 <= m < transaction_steps(filter, cache, stamp, transaction)[k].entries.len(),
    ensures
        ({
            let record = transaction_steps(filter, cache, stamp, transaction)[k].entries[m];
            let outputs = transaction.output_objects@;
            let index = index_of(filter, cache, transaction.input_objects@, stamp);
            &&& k < outputs.len() ==> record.object_id == outputs[k].object_id@ && record.version
                == outputs[k].version && (
            record.object_status == ObjectStatus::Deleted ==> plainly_deleted(
                filter,
                cache,
                index,
                effect_ids(transaction.effects),
                outputs[k],
            ))
            &&& k >= outputs.len() ==> {
                let removed = transaction.effects.deleted@[k - outputs.len()];
                &&& lookup(index, removed.object_id@) is Some
                &&& record.version == removed.version
                &&& record == deletion(
                    stamp->0,
                    transaction.digest@,
                    removed,
                    lookup(index, removed.object_id@)->0,
                )
            }
        }),
{
    lemma_step_shape(filter, cache, stamp, transaction, k);
}

/// Where `wanted` picks none of `entries`, the choice is empty.
proof fn lemma_filter_none(entries: Seq<EntryView>, wanted: spec_fn(EntryView) -> bool)
    requires
        forall|m: int| 0 <= m < entries.len() ==> !wanted(#[trigger] entries[m]),
    ensures
        entries.filter(wanted) == Seq::<EntryView>::empty(),
    decreases entries.len(),
{
    reveal(Seq::filter);
    if entries.len() > 0 {
        let front = entries.drop_last();
        assert forall|m: int| 0 <= m < front.len() implies !wanted(#[trigger] front[m]) by {
            assert(front[m] == entries[m]);
        }
        lemma_filter_none(front, wanted);
        assert(!wanted(entries[entries.len() - 1]));
    }
}

/// Where one step alone gives records that `wanted` picks, the whole gives
/// those and no others.
proof fn lemma_single_hit(
    steps: Seq<Outcome>,
    wanted: spec_fn(EntryView) -> bool,
    hit: int,
    n: int,
)
    requires
        sequenced(steps).error is None,
        0 <= hit < steps.len(),
        0 <= n <= steps.len(),
        forall|i: int|
            0 <= i < steps.len() && i != hit ==> (#[trigger] steps[i]).entries.filter(wanted)
                == Seq::<EntryView>::empty(),
    ensures
        sequenced(steps.take(n)).entries.filter(wanted) == if n <= hit {
            Seq::<EntryView>::empty()
        } else {
            steps[hit].entries.filter(wanted)
        },
    decreases n,
{
    broadcast use Seq::filter_distributes_over_add;

    if n == 0 {
        reveal(Seq::filter);
        assert(steps.take(0) =~= Seq::<Outcome>::empty());
    } else {
        lemma_single_hit(steps, wanted, hit, n - 1);
        lemma_prefix_succeeds(steps, n - 1);
        lemma_sequenced_next(steps, n - 1);
        let before = sequenced(steps.take(n - 1)).entries;
        let step = steps[n - 1];
        assert(sequenced(steps.take(n)).entries.filter(wanted) == before.filter(wanted)
            + step.entries.filter(wanted));
        assert(before.filter(wanted) + step.entries.filter(wanted) =~= if n <= hit {
            Seq::<EntryView>::empty()
        } else {
            steps[hit].entries.filter(wanted)
        });
    }
}

/// Of a transaction that did not fail and that names no output object twice:
/// an output object that matches the filter and that the index does not know
/// has exactly one record. The record carries no earlier state, and its
/// status is the one that the effects give the object: `Created` where they
/// list it as created.
pub proof fn lemma_new_object_recorded_once(
    filter: FilterView,
    cache: Map<Seq<char>, Seq<char>>,
    epoch: u128,
    checkpoint: u128,
    timestamp_ms: u128,
    transaction: CheckpointTransaction,
    i: int,
)
    requires
        transaction_outcome(filter, cache, epoch, checkpoint, timestamp_ms, transaction).error
            is None,
        distinct_objects(transaction.output_objects@),
        0 <= i < transaction.output_objects@.len(),
        matches_filter(filter, cache, transaction.output_objects@[i]),
        lookup(
            transaction_index(filter, cache, epoch, checkpoint, timestamp_ms, transaction),
            transaction.output_objects@[i].object_id@,
        ) is None,
    ensures
        ({
            let object = transaction.output_objects@[i];
            let status = status_among(effect_ids(transaction.effects), object.object_id@);
            let records = transaction_outcome(
                filter,
                cache,
                epoch,
                checkpoint,
                timestamp_ms,
                transaction,
            ).entries.filter(of_object(object.object_id@));
            &&& status is Some
            &&& stamp_of(epoch, checkpoint, timestamp_ms) is Some
            &&& records == seq![
                observed(stamp_of(epoch, checkpoint, timestamp_ms)->0, object, status->0),
            ]
            &&& records[0].no_previous()
            &&& effect_ids(transaction.effects).created.contains(object.object_id@)
                ==> records[0].object_status == ObjectStatus::Created
        }),
{
    broadcast use Seq::lemma_filter_push;

    let stamp = stamp_of(epoch, checkpoint, timestamp_ms);
    let steps = transaction_steps(filter, cache, stamp, transaction);
    let outputs = transaction.output_objects@;
    let object = outputs[i];
    let id = object.object_id@;
    let wanted = of_object(id);
    let none = Seq::<EntryView>::empty();
    lemma_step_shape(filter, cache, stamp, transaction, i);
    lemma_prefix_succeeds(steps, i);
    let status = status_among(effect_ids(transaction.effects), id);
    let record = observed(stamp->0, object, status->0);
    assert(steps[i].entries =~= none.push(record));
    assert forall|k: int| 0 <= k < steps.len() && k != i implies (#[trigger] steps[k]).entries.filter(
        wanted,
    ) == none by {
        assert forall|m: int| 0 <= m < steps[k].entries.len() implies !wanted(
            #[trigger] steps[k].entries[m],
        ) by {
            lemma_step_records(filter, cache, stamp, transaction, k, m);
        }
        lemma_filter_none(steps[k].entries, wanted);
    }
    lemma_single_hit(steps, wanted, i, steps.len() as int);
    assert(steps.take(steps.len() as int) =~= steps);
    assert(none.filter(wanted) == none) by {
        lemma_filter_none(none, wanted);
    }
    assert(none.push(record).filter(wanted) =~= seq![record]);
}

/// Of a transaction that did not fail, that names no deleted object twice and
/// in which no output object of the same id is plainly deleted: a deleted
/// object that the index knows has exactly one deletion record. The record
/// holds no balance, its version is that of the deletion, and its owner and
/// coin type are those of the object's prior state.
pub proof fn lemma_deleted_object_recorded_once(
    filter: FilterView,
    cache: Map<Seq<char>, Seq<char>>,
    epoch: u128,
    checkpoint: u128,
    timestamp_ms: u128,
    transaction: CheckpointTransaction,
    j: int,
)
    requires
        transaction_outcome(filter, cache, epoch, checkpoint, timestamp_ms, transaction).error
            is None,
        distinct_refs(transaction.effects.deleted@),
        0 <= j < transaction.effects.deleted@.len(),
        forall|k: int|
            0 <= k < transaction.output_objects@.len() && (
            #[trigger] transaction.output_objects@[k]).object_id@
                == transaction.effects.deleted@[j].object_id@ ==> !plainly_deleted(
                filter,
                cache,
                transaction_index(filter, cache, epoch, checkpoint, timestamp_ms, transaction),
                effect_ids(transaction.effects),
                transaction.output_objects@[k],
            ),
        lookup(
            transaction_index(filter, cache, epoch, checkpoint, timestamp_ms, transaction),
            transaction.effects.deleted@[j].object_id@,
        ) is Some,
    ensures
        ({
            let removed = transaction.effects.deleted@[j];
            let prior = lookup(
                transaction_index(filter, cache, epoch, checkpoint, timestamp_ms, transaction),
                removed.object_id@,
            )->0;
            let records = transaction_outcome(
                filter,
                cache,
                epoch,
                checkpoint,
                timestamp_ms,
                transaction,
            ).entries.filter(deletion_of(removed.object_id@));
            &&& stamp_of(epoch, checkpoint, timestamp_ms) is Some
            &&& records == seq![
                deletion(
                    stamp_of(epoch, checkpoint, timestamp_ms)->0,
                    transaction.digest@,
                    removed,
                    prior,
                ),
            ]
            &&& records[0].coin_balance == 0
            &&& records[0].version == removed.version
            &&& records[0].owner_address == prior.owner_address
            &&& records[0].owner_type == Some(prior.owner_type)
            &&& records[0].coin_type == prior.coin_type
        }),
{
    broadcast use Seq::lemma_filter_push;

    let stamp = stamp_of(epoch, checkpoint, timestamp_ms);
    let steps = transaction_steps(filter, cache, stamp, transaction);
    let outputs = transaction.output_objects@;
    let index = index_of(filter, cache, transaction.input_objects@, stamp);
    let removed = transaction.effects.deleted@[j];
    let id = removed.object_id@;
    let wanted = deletion_of(id);
    let none = Seq::<EntryView>::empty();
    let place = outputs.len() + j;
    lemma_step_shape(filter, cache, stamp, transaction, place);
    lemma_prefix_succeeds(steps, place);
    let record = deletion(stamp->0, transaction.digest@, removed, lookup(index, id)->0);
    assert(steps[place].entries =~= none.push(record));
    assert forall|k: int|
        0 <= k < steps.len() && k != place implies (#[trigger] steps[k]).entries.filter(wanted)
        == none by {
        assert forall|m: int| 0 <= m < steps[k].entries.len() implies !wanted(
            #[trigger] steps[k].entries[m],
        ) by {
            lemma_step_records(filter, cache, stamp, transaction, k, m);
            if k < outputs.len() {
                assert(outputs[k].object_id@ == id ==> !plainly_deleted(
                    filter,
                    cache,
                    index,
                    effect_ids(transaction.effects),
                    outputs[k],
                ));
            } else {
                assert(transaction.effects.deleted@[k - outputs.len()].object_id@ != id);
            }
        }
        lemma_filter_none(steps[k].entries, wanted);
    }
    lemma_single_hit(steps, wanted, place, steps.len() as int);
    assert(steps.take(steps.len() as int) =~= steps);
    assert(none.filter(wanted) == none) by {
        lemma_filter_none(none, wanted);
    }
    assert(none.push(record).filter(wanted) =~= seq![record]);
}

/// A read hands out the whole buffer, and a second read that follows it with
/// nothing appended in between hands out nothing.
pub proof fn lemma_second_read_is_empty(buffer: Seq<EntryView>)
    ensures
        drained(buffer).0 == buffer,
        drained(drained(buffer).1).0 == Seq::<EntryView>::empty(),
        drained(drained(buffer).1).1 == Seq::<EntryView>::empty(),
{
}

/// After a checkpoint that ended an epoch and did not fail, the cache holds
/// none of the protocol's packages, whatever it held before: the next
/// resolution of such a package finds nothing and has it fetched anew. Every
/// other package is held as before.
pub proof fn lemma_epoch_end_evicts(
    filter: FilterView,
    cache: Map<Seq<char>, Seq<char>>,
    system_packages: Set<Seq<char>>,
    checkpoint: CheckpointData,
    package: Seq<char>,
)
    requires
        checkpoint.checkpoint_summary.end_of_epoch,
        checkpoint_outcome(filter, cache, checkpoint).error is None,
    ensures
        ({
            let after = cache_after(
                cache,
                system_packages,
                checkpoint_outcome(filter, cache, checkpoint).error,
                checkpoint.checkpoint_summary.end_of_epoch,
            );
            &&& system_packages.contains(package) ==> !after.contains_key(package)
            &&& !system_packages.contains(package) ==> after.contains_key(package)
                == cache.contains_key(package) && (cache.contains_key(package) ==> after[package]
                == cache[package])
        }),
{
}

/// The error of the whole is the error of one of its steps.
pub proof fn lemma_error_source(steps: Seq<Outcome>, error: OwnershipError)
    requires
        sequenced(steps).error == Some(error),
    ensures
        exists|k: int| 0 <= k < steps.len() && (#[trigger] steps[k]).error == Some(error),
    decreases steps.len(),
{
    if steps.len() > 0 {
        let front = steps.drop_last();
        if sequenced(front).error is Some {
            lemma_error_source(front, error);
            let k = choose|k: int| 0 <= k < front.len() && (#[trigger] front[k]).error == Some(error);
            assert(steps[k].error == Some(error));
        } else {
            assert(steps[steps.len() - 1].error == Some(error));
        }
    }
}

/// What is listed stays listed.
pub proof fn lemma_awaited_keeps(
    filter: FilterView,
    cache: Map<Seq<char>, Seq<char>>,
    found: Seq<Seq<char>>,
    objects: Seq<ObjectSnapshot>,
    package: Seq<char>,
)
    requires
        found.contains(package),
    ensures
        with_awaited(filter, cache, found, objects).contains(package),
    decreases objects.len(),
{
    if objects.len() > 0 {
        lemma_awaited_keeps(filter, cache, found, objects.drop_last(), package);
        let before = with_awaited(filter, cache, found, objects.drop_last());
        let k = choose|k: int| 0 <= k < before.len() && before[k] == package;
        assert(before.push(objects.last().package@)[k] == package);
    }
}

/// The package of every object that awaits one is listed.
pub proof fn lemma_awaited_listed(
    filter: FilterView,
    cache: Map<Seq<char>, Seq<char>>,
    found: Seq<Seq<char>>,
    objects: Seq<ObjectSnapshot>,
    i: int,
)
    requires
        0 <= i < objects.len(),
        awaits_package(filter, cache, objects[i]),
    ensures
        with_awaited(filter, cache, found, objects).contains(objects[i].package@),
    decreases objects.len(),
{
    let front = objects.drop_last();
    let before = with_awaited(filter, cache, found, front);
    let package = objects[i].package@;
    if i == objects.len() - 1 {
        if !before.contains(package) {
            assert(before.push(package)[before.len() as int] == package);
        }
    } else {
        lemma_awaited_listed(filter, cache, found, front, i);
        assert(front[i] == objects[i]);
        let k = choose|k: int| 0 <= k < before.len() && before[k] == package;
        assert(before.push(objects.last().package@)[k] == package);
    }
}

/// The package of every input or output object of a checkpoint that awaits
/// one is among the missing packages.
pub proof fn lemma_missing_packages_complete(
    filter: FilterView,
    cache: Map<Seq<char>, Seq<char>>,
    transactions: Seq<CheckpointTransaction>,
    t: int,
    package: Seq<char>,
)
    requires
        0 <= t < transactions.len(),
        (exists|i: int|
            0 <= i < transactions[t].input_objects@.len() && awaits_package(
                filter,
                cache,
                #[trigger] transactions[t].input_objects@[i],
            ) && transactions[t].input_objects@[i].package@ == package) || (exists|i: int|
            0 <= i < transactions[t].output_objects@.len() && awaits_package(
                filter,
                cache,
                #[trigger] transactions[t].output_objects@[i],
            ) && transactions[t].output_objects@[i].package@ == package),
    ensures
        missing_packages(filter, cache, transactions).contains(package),
    decreases transactions.len(),
{
    let earlier = missing_packages(filter, cache, transactions.drop_last());
    let last = transactions.last();
    let after_inputs = with_awaited(filter, cache, earlier, last.input_objects@);
    if t < transactions.len() - 1 {
        assert(transactions.drop_last()[t] == transactions[t]);
        lemma_missing_packages_complete(filter, cache, transactions.drop_last(), t, package);
        lemma_awaited_keeps(filter, cache, earlier, last.input_objects@, package);
        lemma_awaited_keeps(filter, cache, after_inputs, last.output_objects@, package);
    } else if exists|i: int|
        0 <= i < last.input_objects@.len() && awaits_package(
            filter,
            cache,
            #[trigger] last.input_objects@[i],
        ) && last.input_objects@[i].package@ == package {
        let i = choose|i: int|
            0 <= i < last.input_objects@.len() && awaits_package(
                filter,
                cache,
                #[trigger] last.input_objects@[i],
            ) && last.input_objects@[i].package@ == package;
        lemma_awaited_listed(filter, cache, earlier, last.input_objects@, i);
        lemma_awaited_keeps(filter, cache, after_inputs, last.output_objects@, package);
    } else {
        let i = choose|i: int|
            0 <= i < last.output_objects@.len() && awaits_package(
                filter,
                cache,
                #[trigger] last.output_objects@[i],
            ) && last.output_objects@[i].package@ == package;
        lemma_awaited_listed(filter, cache, after_inputs, last.output_objects@, i);
    }
}

/// A checkpoint for which no package is missing does not fail for want of a
/// package.
pub proof fn lemma_nothing_missing_resolves(
    filter: FilterView,
    cache: Map<Seq<char>, Seq<char>>,
    checkpoint: CheckpointData,
)
    requires
        missing_packages(filter, cache, checkpoint.transactions@).len() == 0,
    ensures
        checkpoint_outcome(filter, cache, checkpoint).error != Some(
            OwnershipError::UnresolvedPackage,
        ),
{
    let unresolved = OwnershipError::UnresolvedPackage;
    let summary = checkpoint.checkpoint_summary;
    let transactions = checkpoint.transactions@;
    let outcomes = transactions.map_values(
        |transaction: CheckpointTransaction|
            transaction_outcome(
                filter,
                cache,
                checkpoint.checkpoint_summary.epoch,
                checkpoint.checkpoint_summary.sequence_number,
                checkpoint.checkpoint_summary.timestamp_ms,
                transaction,
            ),
    );
    if sequenced(outcomes).error == Some(unresolved) {
        lemma_error_source(outcomes, unresolved);
        let t = choose|t: int|
            0 <= t < outcomes.len() && (#[trigger] outcomes[t]).error == Some(unresolved);
        let transaction = transactions[t];
        let stamp = stamp_of(summary.epoch, summary.sequence_number, summary.timestamp_ms);
        let inputs = transaction.input_objects@;
        if index_failure(filter, cache, stamp, inputs) is Some {
            let checks = inputs.map_values(
                |object: ObjectSnapshot| input_step(filter, cache, stamp, object),
            );
            lemma_error_source(checks, unresolved);
            let i = choose|i: int|
                0 <= i < checks.len() && (#[trigger] checks[i]).error == Some(unresolved);
            assert(awaits_package(filter, cache, transactions[t].input_objects@[i]));
            lemma_missing_packages_complete(filter, cache, transactions, t, inputs[i].package@);
        } else {
            let steps = transaction_steps(filter, cache, stamp, transaction);
            assert(outcomes[t] == sequenced(steps));
            lemma_error_source(steps, unresolved);
            let i = choose|i: int|
                0 <= i < steps.len() && (#[trigger] steps[i]).error == Some(unresolved);
            lemma_step_shape(filter, cache, stamp, transaction, i);
            let object = transaction.output_objects@[i];
            assert(awaits_package(filter, cache, transactions[t].output_objects@[i]));
            lemma_missing_packages_complete(filter, cache, transactions, t, object.package@);
        }
    }
}

/// Steps that all do nothing do nothing together.
pub proof fn lemma_all_skipped(steps: Seq<Outcome>)
    requires
        forall|i: int| 0 <= i < steps.len() ==> #[trigger] steps[i] == skipped(),
    ensures
        sequenced(steps) == skipped(),
    decreases steps.len(),
{
    if steps.len() > 0 {
        let front = steps.drop_last();
        assert forall|i: int| 0 <= i < front.len() implies #[trigger] front[i] == skipped() by {
            assert(front[i] == steps[i]);
        }
        lemma_all_skipped(front);
        assert(steps[steps.len() - 1] == skipped());
        assert(sequenced(steps).entries =~= Seq::<EntryView>::empty());
    }
}

/// Where no input matches the filter, the index is empty.
pub proof fn lemma_index_of_unmatched(
    filter: FilterView,
    cache: Map<Seq<char>, Seq<char>>,
    inputs: Seq<ObjectSnapshot>,
    stamp: Option<Provenance>,
)
    requires
        forall|i: int| 0 <= i < inputs.len() ==> !matches_filter(filter, cache, #[trigger] inputs[i]),
    ensures
        index_of(filter, cache, inputs, stamp) == Seq::<PriorView>::empty(),
    decreases inputs.len(),
{
    if inputs.len() > 0 {
        let front = inputs.drop_last();
        assert forall|i: int| 0 <= i < front.len() implies !matches_filter(
            filter,
            cache,
            #[trigger] front[i],
        ) by {
            assert(front[i] == inputs[i]);
        }
        lemma_index_of_unmatched(filter, cache, front, stamp);
        assert(!matches_filter(filter, cache, inputs[inputs.len() - 1]));
    }
}

/// No input and no output object of the transaction matches the filter, and
/// none awaits a package.
pub open spec fn untouched(
    filter: FilterView,
    cache: Map<Seq<char>, Seq<char>>,
    transaction: CheckpointTransaction,
) -> bool {
    &&& forall|i: int|
        0 <= i < transaction.input_objects@.len() ==> !matches_filter(
            filter,
            cache,
            #[trigger] transaction.input_objects@[i],
        ) && !awaits_package(filter, cache, transaction.input_objects@[i])
    &&& forall|i: int|
        0 <= i < transaction.output_objects@.len() ==> !matches_filter(
            filter,
            cache,
            #[trigger] transaction.output_objects@[i],
        ) && !awaits_package(filter, cache, transaction.output_objects@[i])
}

/// A transaction that touches no object that matches the filter succeeds and
/// gives no record, whatever it deletes and whatever the checkpoint's
/// counters are.
pub proof fn lemma_untouched_transaction_gives_nothing(
    filter: FilterView,
    cache: Map<Seq<char>, Seq<char>>,
    epoch: u128,
    checkpoint: u128,
    timestamp_ms: u128,
    transaction: CheckpointTransaction,
)
    requires
        untouched(filter, cache, transaction),
    ensures
        transaction_outcome(filter, cache, epoch, checkpoint, timestamp_ms, transaction)
            == skipped(),
{
    let stamp = stamp_of(epoch, checkpoint, timestamp_ms);
    let inputs = transaction.input_objects@;
    let checks = inputs.map_values(|object: ObjectSnapshot| input_step(filter, cache, stamp, object));
    assert forall|i: int| 0 <= i < checks.len() implies #[trigger] checks[i] == skipped() by {
        assert(!matches_filter(filter, cache, inputs[i]));
    }
    lemma_all_skipped(checks);
    lemma_index_of_unmatched(filter, cache, inputs, stamp);
    let steps = transaction_steps(filter, cache, stamp, transaction);
    assert forall|k: int| 0 <= k < steps.len() implies #[trigger] steps[k] == skipped() by {
        lemma_step_shape(filter, cache, stamp, transaction, k);
        if k < transaction.output_objects@.len() {
            assert(!matches_filter(filter, cache, transaction.output_objects@[k]));
        }
    }
    lemma_all_skipped(steps);
}

/// A checkpoint none of whose transactions touches an object that matches the
/// filter succeeds and leaves the buffer as it was, whatever it deletes and
/// whatever its counters are. So does a checkpoint without transactions.
pub proof fn lemma_untouched_checkpoint_gives_nothing(
    filter: FilterView,
    cache: Map<Seq<char>, Seq<char>>,
    checkpoint: CheckpointData,
)
    requires
        forall|t: int|
            0 <= t < checkpoint.transactions@.len() ==> untouched(
                filter,
                cache,
                #[trigger] checkpoint.transactions@[t],
            ),
    ensures
        checkpoint_outcome(filter, cache, checkpoint) == skipped(),
{
    let outcomes = checkpoint.transactions@.map_values(
        |transaction: CheckpointTransaction|
            transaction_outcome(
                filter,
                cache,
                checkpoint.checkpoint_summary.epoch,
                checkpoint.checkpoint_summary.sequence_number,
                checkpoint.checkpoint_summary.timestamp_ms,
                transaction,
            ),
    );
    assert forall|t: int| 0 <= t < outcomes.len() implies #[trigger] outcomes[t] == skipped() by {
        lemma_untouched_transaction_gives_nothing(
            filter,
            cache,
            checkpoint.checkpoint_summary.epoch,
            checkpoint.checkpoint_summary.sequence_number,
            checkpoint.checkpoint_summary.timestamp_ms,
            checkpoint.transactions@[t],
        );
    }
    lemma_all_skipped(outcomes);
}

/// What a transaction writes and deletes, as pairs of an object's id and
/// its version: the output objects in order, then the deleted references in
/// order.
pub open spec fn sources(transaction: CheckpointTransaction) -> Seq<(Seq<char>, u128)> {
    transaction.output_objects@.map_values(
        |object: ObjectSnapshot| (object.object_id@, object.version),
    ) + transaction.effects.deleted@.map_values(
        |removed: ObjectRef| (removed.object_id@, removed.version),
    )
}

/// The versions under which one object is written or deleted do not decrease
/// along the transactions, nor within one of them.
pub open spec fn sources_ordered(transactions: Seq<CheckpointTransaction>) -> bool {
    forall|t1: int, p1: int, t2: int, p2: int|
        0 <= t1 <= t2 < transactions.len() && 0 <= p1 < sources(transactions[t1]).len() && 0 <= p2
            < sources(transactions[t2]).len() && (t1 < t2 || p1 < p2) && (#[trigger] sources(
            transactions[t1],
        )[p1]).0 == (#[trigger] sources(transactions[t2])[p2]).0 ==> sources(
            transactions[t1],
        )[p1].1 <= sources(transactions[t2])[p2].1
}

/// Of two records of one object, the later has no lower version.
pub open spec fn in_version_order(earlier: EntryView, later: EntryView) -> bool {
    earlier.object_id == later.object_id ==> earlier.version <= later.version
}

/// The versions of the records of one object do not decrease.
pub open spec fn versions_ordered(entries: Seq<EntryView>) -> bool {
    forall|a: int, b: int|
        0 <= a < b < entries.len() ==> in_version_order(#[trigger] entries[a], #[trigger] entries[b])
}

/// The record has the id and the version of something that the transaction
/// writes or deletes.
pub open spec fn drawn_from(transaction: CheckpointTransaction, entry: EntryView) -> bool {
    exists|p: int|
        0 <= p < sources(transaction).len() && (#[trigger] sources(transaction)[p]) == (
            entry.object_id,
            entry.version as u128,
        )
}

/// Where the records of each step are in version order, and each record of a
/// step is in version order with each record of every later step, the records
/// of the whole are in version order.
pub proof fn lemma_sequenced_in_order(steps: Seq<Outcome>)
    requires
        forall|k: int| 0 <= k < steps.len() ==> versions_ordered((#[trigger] steps[k]).entries),
        forall|k1: int, a: int, k2: int, b: int|
            0 <= k1 < k2 < steps.len() && 0 <= a < steps[k1].entries.len() && 0 <= b
                < steps[k2].entries.len() ==> in_version_order(
                #[trigger] steps[k1].entries[a],
                #[trigger] steps[k2].entries[b],
            ),
    ensures
        versions_ordered(sequenced(steps).entries),
    decreases steps.len(),
{
    if steps.len() > 0 {
        let front = steps.drop_last();
        let last = steps.last();
        assert forall|k: int| 0 <= k < front.len() implies versions_ordered(
            (#[trigger] front[k]).entries,
        ) by {
            assert(front[k] == steps[k]);
        }
        assert forall|k1: int, a: int, k2: int, b: int|
            0 <= k1 < k2 < front.len() && 0 <= a < front[k1].entries.len() && 0 <= b
                < front[k2].entries.len() implies in_version_order(
            #[trigger] front[k1].entries[a],
            #[trigger] front[k2].entries[b],
        ) by {
            assert(front[k1] == steps[k1]);
            assert(front[k2] == steps[k2]);
            assert(in_version_order(steps[k1].entries[a], steps[k2].entries[b]));
        }
        lemma_sequenced_in_order(front);
        let before = sequenced(front);
        if before.error is None {
            let holds = |entry: EntryView|
                forall|b: int| 0 <= b < last.entries.len() ==> in_version_order(
                    entry,
                    #[trigger] last.entries[b],
                );
            assert forall|i: int, k: int|
                0 <= i < front.len() && 0 <= k < front[i].entries.len() implies holds(
                #[trigger] front[i].entries[k],
            ) by {
                assert(front[i] == steps[i]);
                assert forall|b: int| 0 <= b < last.entries.len() implies in_version_order(
                    front[i].entries[k],
                    #[trigger] last.entries[b],
                ) by {
                    assert(in_version_order(
                        steps[i].entries[k],
                        steps[steps.len() - 1].entries[b],
                    ));
                }
            }
            lemma_sequenced_all(front, holds);
            let all = sequenced(steps).entries;
            assert(versions_ordered(steps[steps.len() - 1].entries));
            assert forall|a: int, b: int| 0 <= a < b < all.len() implies in_version_order(
                #[trigger] all[a],
                #[trigger] all[b],
            ) by {
                let n = before.entries.len();
                if b < n {
                    assert(in_version_order(before.entries[a], before.entries[b]));
                } else if a >= n {
                    assert(in_version_order(last.entries[a - n], last.entries[b - n]));
                } else {
                    assert(holds(before.entries[a]));
                    assert(in_version_order(before.entries[a], last.entries[b - n]));
                }
            }
        }
    }
}

/// Every record of a transaction has the id and the version of something that
/// the transaction writes or deletes.
pub proof fn lemma_records_drawn(
    filter: FilterView,
    cache: Map<Seq<char>, Seq<char>>,
    epoch: u128,
    checkpoint: u128,
    timestamp_ms: u128,
    transaction: CheckpointTransaction,
    a: int,
)
    requires
        0 <= a < transaction_outcome(
            filter,
            cache,
            epoch,
            checkpoint,
            timestamp_ms,
            transaction,
        ).entries.len(),
    ensures
        drawn_from(
            transaction,
            transaction_outcome(filter, cache, epoch, checkpoint, timestamp_ms, transaction).entries[a],
        ),
{
    let stamp = stamp_of(epoch, checkpoint, timestamp_ms);
    let steps = transaction_steps(filter, cache, stamp, transaction);
    let holds = |entry: EntryView| drawn_from(transaction, entry);
    assert forall|k: int, m: int|
        0 <= k < steps.len() && 0 <= m < steps[k].entries.len() implies holds(
        #[trigger] steps[k].entries[m],
    ) by {
        lemma_step_shape(filter, cache, stamp, transaction, k);
        lemma_step_records(filter, cache, stamp, transaction, k, m);
        let record = steps[k].entries[m];
        assert(sources(transaction)[k] == (record.object_id, record.version as u128));
    }
    lemma_sequenced_all(steps, holds);
    assert(holds(sequenced(steps).entries[a]));
}

/// Where the versions under which a transaction writes or deletes one object
/// do not decrease, the versions of its records of that object do not either.
pub proof fn lemma_transaction_in_version_order(
    filter: FilterView,
    cache: Map<Seq<char>, Seq<char>>,
    epoch: u128,
    checkpoint: u128,
    timestamp_ms: u128,
    transaction: CheckpointTransaction,
)
    requires
        sources_ordered(seq![transaction]),
    ensures
        versions_ordered(
            transaction_outcome(filter, cache, epoch, checkpoint, timestamp_ms, transaction).entries,
        ),
{
    let stamp = stamp_of(epoch, checkpoint, timestamp_ms);
    let steps = transaction_steps(filter, cache, stamp, transaction);
    let alone = seq![transaction];
    assert(alone[0] == transaction);
    assert forall|k: int| 0 <= k < steps.len() implies versions_ordered(
        (#[trigger] steps[k]).entries,
    ) by {
        assert forall|a: int, b: int| 0 <= a < b < steps[k].entries.len() implies in_version_order(
            #[trigger] steps[k].entries[a],
            #[trigger] steps[k].entries[b],
        ) by {
            lemma_step_records(filter, cache, stamp, transaction, k, a);
            lemma_step_records(filter, cache, stamp, transaction, k, b);
        }
    }
    assert forall|k1: int, a: int, k2: int, b: int|
        0 <= k1 < k2 < steps.len() && 0 <= a < steps[k1].entries.len() && 0 <= b
            < steps[k2].entries.len() implies in_version_order(
        #[trigger] steps[k1].entries[a],
        #[trigger] steps[k2].entries[b],
    ) by {
        lemma_step_shape(filter, cache, stamp, transaction, k1);
        lemma_step_records(filter, cache, stamp, transaction, k1, a);
        lemma_step_records(filter, cache, stamp, transaction, k2, b);
        let earlier = steps[k1].entries[a];
        let later = steps[k2].entries[b];
        assert(sources(alone[0])[k1] == (earlier.object_id, earlier.version as u128));
        assert(sources(alone[0])[k2] == (later.object_id, later.version as u128));
    }
    lemma_sequenced_in_order(steps);
}

/// Where the versions under which a checkpoint writes or deletes one object
/// do not decrease, in the order of its transactions and within each of them,
/// the versions of its records of that object do not decrease either.
pub proof fn lemma_versions_do_not_decrease(
    filter: FilterView,
    cache: Map<Seq<char>, Seq<char>>,
    checkpoint: CheckpointData,
)
    requires
        sources_ordered(checkpoint.transactions@),
    ensures
        versions_ordered(checkpoint_outcome(filter, cache, checkpoint).entries),
{
    let summary = checkpoint.checkpoint_summary;
    let transactions = checkpoint.transactions@;
    let outcomes = transactions.map_values(
        |transaction: CheckpointTransaction|
            transaction_outcome(
                filter,
                cache,
                checkpoint.checkpoint_summary.epoch,
                checkpoint.checkpoint_summary.sequence_number,
                checkpoint.checkpoint_summary.timestamp_ms,
                transaction,
            ),
    );
    assert forall|t: int| 0 <= t < outcomes.len() implies versions_ordered(
        (#[trigger] outcomes[t]).entries,
    ) by {
        let alone = seq![transactions[t]];
        assert forall|t1: int, p1: int, t2: int, p2: int|
            0 <= t1 <= t2 < alone.len() && 0 <= p1 < sources(alone[t1]).len() && 0 <= p2 < sources(
                alone[t2],
            ).len() && (t1 < t2 || p1 < p2) && (#[trigger] sources(alone[t1])[p1]).0 == (
            #[trigger] sources(alone[t2])[p2]).0 implies sources(alone[t1])[p1].1 <= sources(
            alone[t2],
        )[p2].1 by {
            assert(alone[t1] == transactions[t]);
            assert(alone[t2] == transactions[t]);
            assert(sources(transactions[t])[p1].0 == sources(transactions[t])[p2].0);
        }
        lemma_transaction_in_version_order(
            filter,
            cache,
            summary.epoch,
            summary.sequence_number,
            summary.timestamp_ms,
            transactions[t],
        );
    }
    assert forall|t1: int, a: int, t2: int, b: int|
        0 <= t1 < t2 < outcomes.len() && 0 <= a < outcomes[t1].entries.len() && 0 <= b
            < outcomes[t2].entries.len() implies in_version_order(
        #[trigger] outcomes[t1].entries[a],
        #[trigger] outcomes[t2].entries[b],
    ) by {
        lemma_records_drawn(
            filter,
            cache,
            summary.epoch,
            summary.sequence_number,
            summary.timestamp_ms,
            transactions[t1],
            a,
        );
        lemma_records_drawn(
            filter,
            cache,
            summary.epoch,
            summary.sequence_number,
            summary.timestamp_ms,
            transactions[t2],
            b,
        );
        let earlier = outcomes[t1].entries[a];
        let later = outcomes[t2].entries[b];
        let p1 = choose|p: int|
            0 <= p < sources(transactions[t1]).len() && (#[trigger] sources(transactions[t1])[p])
                == (earlier.object_id, earlier.version as u128);
        let p2 = choose|p: int|
            0 <= p < sources(transactions[t2]).len() && (#[trigger] sources(transactions[t2])[p])
                == (later.object_id, later.version as u128);
        assert(sources(transactions[t1])[p1].0 == earlier.object_id);
        assert(sources(transactions[t2])[p2].0 == later.object_id);
    }
    lemma_sequenced_in_order(outcomes);
}

} // verus!
