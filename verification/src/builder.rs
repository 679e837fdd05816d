//! The transition builder at work: it fills a buffer with the records that
//! `transition` describes.

use vstd::prelude::*;
use crate::cache::PackageCache;
use crate::status::{contains_id, effect_ids, texts, ObjectStatusTracker};
use crate::transition::{
    awaits_package, deleted_step, deletion, filter_verdict, index_failure, index_of, input_step,
    is_tracked, lemma_lookup_skips, lemma_sequenced_next, lemma_sequenced_stops, lookup,
    matches_filter, missing_packages, observed, output_step, prior_of, prior_views, reported,
    sequenced, stamp_of, transaction_outcome, transaction_steps, transfer_in, transfer_out,
    with_awaited, with_previous, Outcome, PriorState, Provenance,
};
use crate::types::{
    copy_text, fits, narrow, same_text, views, CheckpointTransaction, EntryView, ObjectRef,
    ObjectSnapshot, ObjectStatus, OwnershipEntry, OwnershipError, TypeFilter,
};

verus! {

/// Whether `object` is a coin of the filter's coin type.
pub fn tracks(filter: &TypeFilter, object: &ObjectSnapshot) -> (yes: bool)
    ensures
        yes == is_tracked(filter@, *object),
{
    match &object.coin_type {
        Some(coin_type) => *coin_type == filter.coin_type,
        None => false,
    }
}

/// Whether an object whose type names `package` passes the package filter.
pub fn passes_package_filter(filter: &TypeFilter, cache: &PackageCache, package: &String) -> (verdict:
    Result<bool, OwnershipError>)
    requires
        cache.wf(),
    ensures
        verdict == filter_verdict(filter@.package, cache@, package@),
{
    match &filter.package {
        None => Ok(true),
        Some(wanted) => match cache.resolve(package) {
            Some(origin) => Ok(origin == *wanted),
            None => Err(OwnershipError::UnresolvedPackage),
        },
    }
}

/// Builds the index of a transaction's inputs: the prior state of each input
/// that matches the filter, stamped with the checkpoint. It fails at the
/// first input that is tracked and whose package is not in the cache, or that
/// matches the filter while there is no stamp or its version or balance does
/// not fit.
pub fn build_index(
    filter: &TypeFilter,
    cache: &PackageCache,
    inputs: &Vec<ObjectSnapshot>,
    stamp: Option<Provenance>,
) -> (built: Result<Vec<PriorState>, OwnershipError>)
    requires
        cache.wf(),
    ensures
        match built {
            Ok(index) => index_failure(filter@, cache@, stamp, inputs@) is None && prior_views(
                index@,
            ) == index_of(filter@, cache@, inputs@, stamp),
            Err(error) => index_failure(filter@, cache@, stamp, inputs@) == Some(error),
        },
{
    let ghost steps = inputs@.map_values(
        |object: ObjectSnapshot| input_step(filter@, cache@, stamp, object),
    );
    let mut index: Vec<PriorState> = Vec::new();
    let mut i: usize = 0;
    assert(steps.take(0) =~= Seq::<Outcome>::empty());
    while i < inputs.len()
        invariant
            i <= inputs.len(),
            cache.wf(),
            steps == inputs@.map_values(
                |object: ObjectSnapshot| input_step(filter@, cache@, stamp, object),
            ),
            sequenced(steps.take(i as int)).error is None,
            prior_views(index@) == index_of(filter@, cache@, inputs@.take(i as int), stamp),
        decreases inputs.len() - i,
    {
        let object = &inputs[i];
        proof {
            assert(inputs@.take(i + 1).drop_last() =~= inputs@.take(i as int));
            assert(inputs@.take(i + 1).last() == *object);
            assert(steps[i as int] == input_step(filter@, cache@, stamp, *object));
            lemma_sequenced_next(steps, i as int);
        }
        let matches = if tracks(filter, object) {
            match passes_package_filter(filter, cache, &object.package) {
                Ok(passes) => passes,
                Err(error) => {
                    proof {
                        lemma_sequenced_stops(steps, i + 1);
                    }
                    return Err(error);
                },
            }
        } else {
            false
        };
        assert(matches == matches_filter(filter@, cache@, *object));
        if matches {
            let checkpoint = match stamp {
                Some(stamp) => stamp.checkpoint,
                None => {
                    proof {
                        lemma_sequenced_stops(steps, i + 1);
                    }
                    return Err(OwnershipError::Narrowing);
                },
            };
            let version = match narrow(object.version) {
                Ok(version) => version,
                Err(error) => {
                    proof {
                        lemma_sequenced_stops(steps, i + 1);
                    }
                    return Err(error);
                },
            };
            let coin_balance = match narrow(object.coin_balance) {
                Ok(balance) => balance,
                Err(error) => {
                    proof {
                        lemma_sequenced_stops(steps, i + 1);
                    }
                    return Err(error);
                },
            };
            let prior = PriorState {
                object_id: object.object_id.clone(),
                version,
                checkpoint,
                owner_type: object.owner_type,
                owner_address: copy_text(&object.owner_address),
                coin_type: copy_text(&object.coin_type),
                coin_balance,
            };
            assert(prior@ == prior_of(*object, checkpoint));
            let ghost before = index@;
            index.push(prior);
            assert(prior_views(index@) =~= prior_views(before) + seq![prior@]);
        }
        i += 1;
    }
    assert(steps.take(i as int) =~= steps);
    assert(inputs@.take(i as int) =~= inputs@);
    Ok(index)
}

/// The place in the index of the first prior state of the object `id`.
pub fn find_prior(index: &Vec<PriorState>, id: &String) -> (found: Option<usize>)
    ensures
        match found {
            Some(k) => k < index.len() && lookup(prior_views(index@), id@) == Some(index[k as int]@),
            None => lookup(prior_views(index@), id@) is None,
        },
{
    let ghost all = prior_views(index@);
    let mut k: usize = 0;
    while k < index.len()
        invariant
            k <= index.len(),
            all == prior_views(index@),
            forall|j: int| 0 <= j < k ==> all[j].object_id != id@,
        decreases index.len() - k,
    {
        if index[k].object_id == *id {
            proof {
                lemma_lookup_skips(all, id@, k as int);
                assert(all.skip(k as int).first() == index[k as int]@);
            }
            return Some(k);
        }
        k += 1;
    }
    proof {
        lemma_lookup_skips(all, id@, k as int);
        assert(all.skip(k as int).len() == 0);
    }
    None
}

/// The record of an output object as it stands, or a failure where its
/// version or its balance does not fit.
pub fn observe(stamp: Provenance, object: &ObjectSnapshot, status: ObjectStatus) -> (made: Result<
    OwnershipEntry,
    OwnershipError,
>)
    ensures
        match made {
            Ok(entry) => fits(object.version) && fits(object.coin_balance) && entry@ == observed(
                stamp,
                *object,
                status,
            ),
            Err(error) => !(fits(object.version) && fits(object.coin_balance)) && error
                == OwnershipError::Narrowing,
        },
{
    let version = match narrow(object.version) {
        Ok(version) => version,
        Err(error) => {
            return Err(error);
        },
    };
    let coin_balance = match narrow(object.coin_balance) {
        Ok(balance) => balance,
        Err(error) => {
            return Err(error);
        },
    };
    Ok(
        OwnershipEntry {
            object_id: object.object_id.clone(),
            version,
            checkpoint: stamp.checkpoint,
            epoch: stamp.epoch,
            timestamp_ms: stamp.timestamp_ms,
            owner_type: Some(object.owner_type),
            owner_address: copy_text(&object.owner_address),
            object_status: status,
            previous_transaction: object.previous_transaction.clone(),
            coin_type: copy_text(&object.coin_type),
            coin_balance,
            previous_owner: None,
            previous_version: None,
            previous_checkpoint: None,
            previous_coin_type: None,
            previous_type: None,
        },
    )
}

/// Writes the earlier state `prior` into a record.
pub fn carry_previous(entry: &mut OwnershipEntry, prior: &PriorState)
    ensures
        final(entry)@ == with_previous(old(entry)@, prior@),
{
    entry.previous_owner = copy_text(&prior.owner_address);
    entry.previous_version = Some(prior.version);
    entry.previous_checkpoint = Some(prior.checkpoint);
    entry.previous_coin_type = copy_text(&prior.coin_type);
    entry.previous_type = Some(prior.owner_type);
}

/// Appends what one output object contributes. The stamp is that of the
/// checkpoint, or none where its counters do not fit.
pub fn append_output(
    buffer: &mut Vec<OwnershipEntry>,
    filter: &TypeFilter,
    cache: &PackageCache,
    stamp: Option<Provenance>,
    index: &Vec<PriorState>,
    tracker: &ObjectStatusTracker,
    object: &ObjectSnapshot,
) -> (done: Result<(), OwnershipError>)
    requires
        cache.wf(),
    ensures
        views(final(buffer)@) == views(old(buffer)@) + output_step(
            filter@,
            cache@,
            stamp,
            prior_views(index@),
            tracker@,
            *object,
        ).entries,
        done == reported(
            output_step(filter@, cache@, stamp, prior_views(index@), tracker@, *object).error,
        ),
{
    let ghost before = buffer@;
    assert(views(before) + Seq::<EntryView>::empty() =~= views(before));
    if !tracks(filter, object) {
        return Ok(());
    }
    match passes_package_filter(filter, cache, &object.package) {
        Err(error) => {
            return Err(error);
        },
        Ok(false) => {
            return Ok(());
        },
        Ok(true) => {},
    }
    let stamp = match stamp {
        Some(stamp) => stamp,
        None => {
            return Err(OwnershipError::Narrowing);
        },
    };
    let mut into = match observe(stamp, object, ObjectStatus::TransferIn) {
        Ok(entry) => entry,
        Err(error) => {
            return Err(error);
        },
    };
    match find_prior(index, &object.object_id) {
        Some(k) if !same_text(&index[k].owner_address, &object.owner_address) => {
            let prior = &index[k];
            let mut out = match observe(stamp, object, ObjectStatus::TransferOut) {
                Ok(entry) => entry,
                Err(error) => {
                    return Err(error);
                },
            };
            out.owner_address = copy_text(&prior.owner_address);
            out.coin_balance = 0;
            carry_previous(&mut out, prior);
            carry_previous(&mut into, prior);
            buffer.push(out);
            buffer.push(into);
            assert(views(buffer@) =~= views(before) + seq![
                transfer_out(stamp, *object, prior@),
                transfer_in(stamp, *object, prior@),
            ]);
            Ok(())
        },
        _ => match tracker.get_object_status(&object.object_id) {
            None => Err(OwnershipError::StatusNotFound),
            Some(status) => {
                let mut entry = into;
                entry.object_status = status;
                assert(entry@ == observed(stamp, *object, status));
                buffer.push(entry);
                assert(views(buffer@) =~= views(before) + seq![observed(stamp, *object, status)]);
                Ok(())
            },
        },
    }
}

/// Appends what one deleted object contributes. The stamp is that of the
/// checkpoint, or none where its counters do not fit.
pub fn append_deleted(
    buffer: &mut Vec<OwnershipEntry>,
    stamp: Option<Provenance>,
    index: &Vec<PriorState>,
    digest: &String,
    removed: &ObjectRef,
) -> (done: Result<(), OwnershipError>)
    ensures
        views(final(buffer)@) == views(old(buffer)@) + deleted_step(
            stamp,
            prior_views(index@),
            digest@,
            *removed,
        ).entries,
        done == reported(deleted_step(stamp, prior_views(index@), digest@, *removed).error),
{
    let ghost before = buffer@;
    assert(views(before) + Seq::<EntryView>::empty() =~= views(before));
    match find_prior(index, &removed.object_id) {
        None => Ok(()),
        Some(k) => {
            let stamp = match stamp {
                Some(stamp) => stamp,
                None => {
                    return Err(OwnershipError::Narrowing);
                },
            };
            let version = match narrow(removed.version) {
                Ok(version) => version,
                Err(error) => {
                    return Err(error);
                },
            };
            let prior = &index[k];
            let entry = OwnershipEntry {
                object_id: removed.object_id.clone(),
                version,
                checkpoint: stamp.checkpoint,
                epoch: stamp.epoch,
                timestamp_ms: stamp.timestamp_ms,
                owner_type: Some(prior.owner_type),
                owner_address: copy_text(&prior.owner_address),
                object_status: ObjectStatus::Deleted,
                previous_transaction: digest.clone(),
                coin_type: copy_text(&prior.coin_type),
                coin_balance: 0,
                previous_owner: None,
                previous_version: None,
                previous_checkpoint: None,
                previous_coin_type: None,
                previous_type: None,
            };
            assert(entry@ == deletion(stamp, digest@, *removed, prior@));
            buffer.push(entry);
            assert(views(buffer@) =~= views(before) + seq![
                deletion(stamp, digest@, *removed, prior@),
            ]);
            Ok(())
        },
    }
}

/// The provenance that a checkpoint's counters give, or none where one of
/// them does not fit.
pub fn stamp(epoch: u128, checkpoint: u128, timestamp_ms: u128) -> (made: Option<Provenance>)
    ensures
        made == stamp_of(epoch, checkpoint, timestamp_ms),
{
    match (narrow(epoch), narrow(checkpoint), narrow(timestamp_ms)) {
        (Ok(epoch), Ok(checkpoint), Ok(timestamp_ms)) => Some(
            Provenance { checkpoint, epoch, timestamp_ms },
        ),
        _ => None,
    }
}

/// Appends the records of one transaction: those of its output objects in
/// order, then those of its deleted objects in order. It stops at the first
/// step that fails, and leaves in the buffer what was appended before.
#[verifier::loop_isolation(false)]
pub fn append_transaction(
    buffer: &mut Vec<OwnershipEntry>,
    filter: &TypeFilter,
    cache: &PackageCache,
    epoch: u128,
    checkpoint: u128,
    timestamp_ms: u128,
    transaction: &CheckpointTransaction,
) -> (done: Result<(), OwnershipError>)
    requires
        cache.wf(),
    ensures
        views(final(buffer)@) == views(old(buffer)@) + transaction_outcome(
            filter@,
            cache@,
            epoch,
            checkpoint,
            timestamp_ms,
            *transaction,
        ).entries,
        done == reported(
            transaction_outcome(
                filter@,
                cache@,
                epoch,
                checkpoint,
                timestamp_ms,
                *transaction,
            ).error,
        ),
{
    let ghost start = buffer@;
    assert(views(start) + Seq::<EntryView>::empty() =~= views(start));
    let stamp = stamp(epoch, checkpoint, timestamp_ms);
    let index = match build_index(filter, cache, &transaction.input_objects, stamp) {
        Ok(index) => index,
        Err(error) => {
            return Err(error);
        },
    };
    let tracker = ObjectStatusTracker::new(&transaction.effects);
    let ghost steps = transaction_steps(filter@, cache@, stamp, *transaction);
    let outputs = transaction.output_objects.len();
    let mut i: usize = 0;
    assert(steps.take(0) =~= Seq::<Outcome>::empty());
    while i < outputs
        invariant
            i <= outputs,
            outputs == transaction.output_objects.len(),
            cache.wf(),
            prior_views(index@) == index_of(filter@, cache@, transaction.input_objects@, stamp),
            tracker@ == effect_ids(transaction.effects),
            steps == transaction_steps(filter@, cache@, stamp, *transaction),
            sequenced(steps.take(i as int)).error is None,
            views(buffer@) == views(start) + sequenced(steps.take(i as int)).entries,
        decreases outputs - i,
    {
        let done = append_output(
            buffer,
            filter,
            cache,
            stamp,
            &index,
            &tracker,
            &transaction.output_objects[i],
        );
        proof {
            assert(steps[i as int] == output_step(
                filter@,
                cache@,
                stamp,
                prior_views(index@),
                tracker@,
                transaction.output_objects[i as int],
            ));
            lemma_sequenced_next(steps, i as int);
            assert(views(buffer@) =~= views(start) + sequenced(steps.take(i + 1)).entries);
        }
        match done {
            Err(error) => {
                proof {
                    lemma_sequenced_stops(steps, i + 1);
                }
                return Err(error);
            },
            Ok(()) => {},
        }
        i += 1;
    }
    let removals = transaction.effects.deleted.len();
    let mut j: usize = 0;
    while j < removals
        invariant
            j <= removals,
            removals == transaction.effects.deleted.len(),
            outputs == transaction.output_objects.len(),
            prior_views(index@) == index_of(filter@, cache@, transaction.input_objects@, stamp),
            steps == transaction_steps(filter@, cache@, stamp, *transaction),
            sequenced(steps.take(outputs + j)).error is None,
            views(buffer@) == views(start) + sequenced(steps.take(outputs + j)).entries,
        decreases removals - j,
    {
        let done = append_deleted(
            buffer,
            stamp,
            &index,
            &transaction.digest,
            &transaction.effects.deleted[j],
        );
        proof {
            assert(steps[outputs + j] == deleted_step(
                stamp,
                prior_views(index@),
                transaction.digest@,
                transaction.effects.deleted[j as int],
            ));
            lemma_sequenced_next(steps, outputs + j);
            assert(views(buffer@) =~= views(start) + sequenced(
                steps.take(outputs + j + 1),
            ).entries);
        }
        match done {
            Err(error) => {
                proof {
                    lemma_sequenced_stops(steps, outputs + j + 1);
                }
                return Err(error);
            },
            Ok(()) => {},
        }
        j += 1;
    }
    assert(steps.take(outputs + removals) =~= steps);
    Ok(())
}

/// Lists, after the packages in `packages`, the package of each of `objects`
/// that awaits one and whose package is not listed yet.
pub fn list_awaited(
    filter: &TypeFilter,
    cache: &PackageCache,
    objects: &Vec<ObjectSnapshot>,
    packages: &mut Vec<String>,
)
    requires
        cache.wf(),
    ensures
        texts(final(packages)@) == with_awaited(
            filter@,
            cache@,
            texts(old(packages)@),
            objects@,
        ),
        texts(old(packages)@).no_duplicates() ==> texts(final(packages)@).no_duplicates(),
{
    let mut i: usize = 0;
    assert(objects@.take(0) =~= Seq::<ObjectSnapshot>::empty());
    while i < objects.len()
        invariant
            i <= objects.len(),
            cache.wf(),
            texts(packages@) == with_awaited(
                filter@,
                cache@,
                texts(old(packages)@),
                objects@.take(i as int),
            ),
            texts(old(packages)@).no_duplicates() ==> texts(packages@).no_duplicates(),
        decreases objects.len() - i,
    {
        let object = &objects[i];
        let ghost before = texts(packages@);
        proof {
            assert(objects@.take(i + 1).drop_last() =~= objects@.take(i as int));
            assert(objects@.take(i + 1).last() == *object);
        }
        let awaited = tracks(filter, object) && passes_package_filter(
            filter,
            cache,
            &object.package,
        ).is_err();
        assert(awaited == awaits_package(filter@, cache@, *object));
        if awaited && !contains_id(packages, &object.package) {
            packages.push(object.package.clone());
            assert(texts(packages@) =~= before.push(object.package@));
        }
        i += 1;
    }
    assert(objects@.take(i as int) =~= objects@);
}

/// The packages that have to be fetched and handed to the cache before
/// `transactions` can be processed, each once, in the order in which the
/// objects that await them are met.
pub fn unresolved_packages(
    filter: &TypeFilter,
    cache: &PackageCache,
    transactions: &Vec<CheckpointTransaction>,
) -> (packages: Vec<String>)
    requires
        cache.wf(),
    ensures
        texts(packages@) == missing_packages(filter@, cache@, transactions@),
        texts(packages@).no_duplicates(),
{
    let mut packages: Vec<String> = Vec::new();
    let mut t: usize = 0;
    assert(transactions@.take(0) =~= Seq::<CheckpointTransaction>::empty());
    assert(texts(packages@) =~= Seq::<Seq<char>>::empty());
    while t < transactions.len()
        invariant
            t <= transactions.len(),
            cache.wf(),
            texts(packages@) == missing_packages(filter@, cache@, transactions@.take(t as int)),
            texts(packages@).no_duplicates(),
        decreases transactions.len() - t,
    {
        proof {
            assert(transactions@.take(t + 1).drop_last() =~= transactions@.take(t as int));
            assert(transactions@.take(t + 1).last() == transactions@[t as int]);
        }
        list_awaited(filter, cache, &transactions[t].input_objects, &mut packages);
        list_awaited(filter, cache, &transactions[t].output_objects, &mut packages);
        t += 1;
    }
    assert(transactions@.take(t as int) =~= transactions@);
    packages
}

} // verus!
