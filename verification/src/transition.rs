//! The transition builder: from the objects that a transaction consumed,
//! produced and deleted to the ownership records that say what happened.

use vstd::prelude::*;
use crate::status::{effect_ids, status_among, EffectIds};
use crate::types::{
    fits, text, CheckpointData, CheckpointTransaction, EntryView, FilterView, ObjectRef,
    ObjectSnapshot, ObjectStatus, OwnerType, OwnershipError,
};

verus! {

/// Where and when an observation was made, in the width of a record's fields.
#[derive(Clone, Copy, Debug, PartialEq, Eq, Structural)]
pub struct Provenance {
    pub checkpoint: u64,
    pub epoch: u64,
    pub timestamp_ms: u64,
}

/// The state of a tracked object before the transaction, as the index keeps
/// it.
pub struct PriorState {
    pub object_id: String,
    pub version: u64,
    pub checkpoint: u64,
    pub owner_type: OwnerType,
    pub owner_address: Option<String>,
    pub coin_type: Option<String>,
    pub coin_balance: u64,
}

/// The mathematical content of a [`PriorState`].
pub ghost struct PriorView {
    pub object_id: Seq<char>,
    pub version: u64,
    pub checkpoint: u64,
    pub owner_type: OwnerType,
    pub owner_address: Option<Seq<char>>,
    pub coin_type: Option<Seq<char>>,
    pub coin_balance: u64,
}

impl View for PriorState {
    type V = PriorView;

    open spec fn view(&self) -> PriorView {
        PriorView {
            object_id: self.object_id@,
            version: self.version,
            checkpoint: self.checkpoint,
            owner_type: self.owner_type,
            owner_address: text(self.owner_address),
            coin_type: text(self.coin_type),
            coin_balance: self.coin_balance,
        }
    }
}

/// The contents of an index.
pub open spec fn prior_views(index: Seq<PriorState>) -> Seq<PriorView> {
    index.map_values(|p: PriorState| p@)
}

/// What processing did: the records it emitted, and the error that stopped
/// it, if one did.
pub ghost struct Outcome {
    pub entries: Seq<EntryView>,
    pub error: Option<OwnershipError>,
}

pub open spec fn skipped() -> Outcome {
    Outcome { entries: Seq::empty(), error: None }
}

pub open spec fn failed(error: OwnershipError) -> Outcome {
    Outcome { entries: Seq::empty(), error: Some(error) }
}

pub open spec fn emitted(entries: Seq<EntryView>) -> Outcome {
    Outcome { entries, error: None }
}

/// The outcome of taking `steps` in order and stopping after the first that
/// fails: the records of every step up to and including that one, and its
/// error.
pub open spec fn sequenced(steps: Seq<Outcome>) -> Outcome
    decreases steps.len(),
{
    if steps.len() == 0 {
        skipped()
    } else {
        let before = sequenced(steps.drop_last());
        if before.error is Some {
            before
        } else {
            Outcome {
                entries: before.entries + steps.last().entries,
                error: steps.last().error,
            }
        }
    }
}

/// The result that reports an outcome's error.
pub open spec fn reported(error: Option<OwnershipError>) -> Result<(), OwnershipError> {
    match error {
        Some(e) => Err(e),
        None => Ok(()),
    }
}

/// An object is tracked where it is a coin of the filter's coin type.
pub open spec fn is_tracked(filter: FilterView, object: ObjectSnapshot) -> bool {
    text(object.coin_type) == Some(filter.coin_type)
}

/// Whether an object whose type names `package` passes the package filter.
/// With no filter every object passes; with one, the package has to be in the
/// cache, and passes where its origin is the filter's address.
pub open spec fn filter_verdict(
    wanted_package: Option<Seq<char>>,
    cache: Map<Seq<char>, Seq<char>>,
    package: Seq<char>,
) -> Result<bool, OwnershipError> {
    match wanted_package {
        None => Ok(true),
        Some(wanted) => if cache.contains_key(package) {
            Ok(cache[package] == wanted)
        } else {
            Err(OwnershipError::UnresolvedPackage)
        },
    }
}

/// An object matches the filter where it is tracked and passes the package
/// filter. Only such objects enter the index, and only they produce records.
pub open spec fn matches_filter(
    filter: FilterView,
    cache: Map<Seq<char>, Seq<char>>,
    object: ObjectSnapshot,
) -> bool {
    is_tracked(filter, object) && filter_verdict(filter.package, cache, object.package@) == Ok::<
        bool,
        OwnershipError,
    >(true)
}

/// The prior state that an input object gives.
pub open spec fn prior_of(object: ObjectSnapshot, checkpoint: u64) -> PriorView {
    PriorView {
        object_id: object.object_id@,
        version: object.version as u64,
        checkpoint,
        owner_type: object.owner_type,
        owner_address: text(object.owner_address),
        coin_type: text(object.coin_type),
        coin_balance: object.coin_balance as u64,
    }
}

/// The index of a transaction's inputs: the prior state of each one that
/// matches the filter, in order. A prior state is stamped with the
/// checkpoint; where the checkpoint's counters do not fit there is no stamp,
/// and the index holds nothing.
pub open spec fn index_of(
    filter: FilterView,
    cache: Map<Seq<char>, Seq<char>>,
    inputs: Seq<ObjectSnapshot>,
    stamp: Option<Provenance>,
) -> Seq<PriorView> {
    match stamp {
        Some(stamp) => inputs.filter_map(
            |object: ObjectSnapshot|
                if matches_filter(filter, cache, object) {
                    Some(prior_of(object, stamp.checkpoint))
                } else {
                    None
                },
        ),
        None => Seq::empty(),
    }
}

/// What one input object contributes while the index is built: no record, and
/// a failure where the object is tracked and its package is not in the cache,
/// or where it matches the filter and a counter of the checkpoint, its
/// version or its balance does not fit. An object that does not match the
/// filter has no counter narrowed.
pub open spec fn input_step(
    filter: FilterView,
    cache: Map<Seq<char>, Seq<char>>,
    stamp: Option<Provenance>,
    object: ObjectSnapshot,
) -> Outcome {
    if !is_tracked(filter, object) {
        skipped()
    } else if filter_verdict(filter.package, cache, object.package@) is Err {
        failed(OwnershipError::UnresolvedPackage)
    } else if matches_filter(filter, cache, object) && !(stamp is Some && fits(object.version)
        && fits(object.coin_balance)) {
        failed(OwnershipError::Narrowing)
    } else {
        skipped()
    }
}

/// The failure that stops the building of the index: that of the first input
/// object that fails, or none.
pub open spec fn index_failure(
    filter: FilterView,
    cache: Map<Seq<char>, Seq<char>>,
    stamp: Option<Provenance>,
    inputs: Seq<ObjectSnapshot>,
) -> Option<OwnershipError> {
    sequenced(
        inputs.map_values(|object: ObjectSnapshot| input_step(filter, cache, stamp, object)),
    ).error
}

/// The first prior state in `index` for the object `id`.
pub open spec fn lookup(index: Seq<PriorView>, id: Seq<char>) -> Option<PriorView>
    decreases index.len(),
{
    if index.len() == 0 {
        None
    } else if index.first().object_id == id {
        Some(index.first())
    } else {
        lookup(index.drop_first(), id)
    }
}

/// A prior state that is not found among the first entries is found among the
/// rest.
pub proof fn lemma_lookup_skips(index: Seq<PriorView>, id: Seq<char>, k: int)
    requires
        0 <= k <= index.len(),
        forall|j: int| 0 <= j < k ==> index[j].object_id != id,
    ensures
        lookup(index, id) == lookup(index.skip(k), id),
    decreases k,
{
    if k == 0 {
        assert(index.skip(0) =~= index);
    } else {
        lemma_lookup_skips(index, id, k - 1);
        let rest = index.skip(k - 1);
        assert(rest.first() == index[k - 1]);
        assert(rest.drop_first() =~= index.skip(k));
    }
}

/// The record of an output object as it stands after the transaction, with no
/// earlier state.
pub open spec fn observed(stamp: Provenance, object: ObjectSnapshot, status: ObjectStatus)
    -> EntryView {
    EntryView {
        object_id: object.object_id@,
        version: object.version as u64,
        checkpoint: stamp.checkpoint,
        epoch: stamp.epoch,
        timestamp_ms: stamp.timestamp_ms,
        owner_type: Some(object.owner_type),
        owner_address: text(object.owner_address),
        object_status: status,
        previous_transaction: object.previous_transaction@,
        coin_type: text(object.coin_type),
        coin_balance: object.coin_balance as u64,
        previous_owner: None,
        previous_version: None,
        previous_checkpoint: None,
        previous_coin_type: None,
        previous_type: None,
    }
}

/// `entry` with the earlier state `prior` written into it.
pub open spec fn with_previous(entry: EntryView, prior: PriorView) -> EntryView {
    EntryView {
        previous_owner: prior.owner_address,
        previous_version: Some(prior.version),
        previous_checkpoint: Some(prior.checkpoint),
        previous_coin_type: prior.coin_type,
        previous_type: Some(prior.owner_type),
        ..entry
    }
}

/// The record that an owner gave the object away: it names the old owner's
/// address and holds no balance.
pub open spec fn transfer_out(stamp: Provenance, object: ObjectSnapshot, prior: PriorView)
    -> EntryView {
    with_previous(
        EntryView {
            owner_address: prior.owner_address,
            coin_balance: 0,
            ..observed(stamp, object, ObjectStatus::TransferOut)
        },
        prior,
    )
}

/// The record that the new owner received the object.
pub open spec fn transfer_in(stamp: Provenance, object: ObjectSnapshot, prior: PriorView)
    -> EntryView {
    with_previous(observed(stamp, object, ObjectStatus::TransferIn), prior)
}

/// The record that the transaction `digest` deleted an object that was known
/// as `prior`: the version is that of the deletion, the owner and the coin
/// type are those of `prior`.
pub open spec fn deletion(
    stamp: Provenance,
    digest: Seq<char>,
    removed: ObjectRef,
    prior: PriorView,
) -> EntryView {
    EntryView {
        object_id: removed.object_id@,
        version: removed.version as u64,
        checkpoint: stamp.checkpoint,
        epoch: stamp.epoch,
        timestamp_ms: stamp.timestamp_ms,
        owner_type: Some(prior.owner_type),
        owner_address: prior.owner_address,
        object_status: ObjectStatus::Deleted,
        previous_transaction: digest,
        coin_type: prior.coin_type,
        coin_balance: 0,
        previous_owner: None,
        previous_version: None,
        previous_checkpoint: None,
        previous_coin_type: None,
        previous_type: None,
    }
}

/// The owner of `object` is not the one that `prior` names.
pub open spec fn owner_changed(prior: Option<PriorView>, object: ObjectSnapshot) -> bool {
    prior is Some && prior->0.owner_address != text(object.owner_address)
}

/// What one output object contributes.
///
/// An object that is not tracked, or that the filter turns away, contributes
/// nothing, and has no counter narrowed. One that matches the filter fails
/// where a counter of the checkpoint, its version or its balance does not
/// fit. One whose owner differs from its prior state's gives the pair
/// transfer out, transfer in. Any other gives one record, with the status
/// that the effects give the object, and fails where they give it none.
pub open spec fn output_step(
    filter: FilterView,
    cache: Map<Seq<char>, Seq<char>>,
    stamp: Option<Provenance>,
    index: Seq<PriorView>,
    effects: EffectIds,
    object: ObjectSnapshot,
) -> Outcome {
    let prior = lookup(index, object.object_id@);
    let status = status_among(effects, object.object_id@);
    if !is_tracked(filter, object) {
        skipped()
    } else if filter_verdict(filter.package, cache, object.package@) is Err {
        failed(OwnershipError::UnresolvedPackage)
    } else if !matches_filter(filter, cache, object) {
        skipped()
    } else if stamp is None || !fits(object.version) || !fits(object.coin_balance) {
        failed(OwnershipError::Narrowing)
    } else if owner_changed(prior, object) {
        emitted(
            seq![
                transfer_out(stamp->0, object, prior->0),
                transfer_in(stamp->0, object, prior->0),
            ],
        )
    } else if status is None {
        failed(OwnershipError::StatusNotFound)
    } else {
        emitted(seq![observed(stamp->0, object, status->0)])
    }
}

/// What one deleted object contributes: a deletion record where the index
/// knows the object, nothing where it does not. The record fails where a
/// counter of the checkpoint or the version of the deletion does not fit.
pub open spec fn deleted_step(
    stamp: Option<Provenance>,
    index: Seq<PriorView>,
    digest: Seq<char>,
    removed: ObjectRef,
) -> Outcome {
    match lookup(index, removed.object_id@) {
        None => skipped(),
        Some(prior) => if stamp is None || !fits(removed.version) {
            failed(OwnershipError::Narrowing)
        } else {
            emitted(seq![deletion(stamp->0, digest, removed, prior)])
        },
    }
}

/// The steps of a transaction: one for each output object, then one for each
/// deleted object.
pub open spec fn transaction_steps(
    filter: FilterView,
    cache: Map<Seq<char>, Seq<char>>,
    stamp: Option<Provenance>,
    transaction: CheckpointTransaction,
) -> Seq<Outcome> {
    let index = index_of(filter, cache, transaction.input_objects@, stamp);
    let effects = effect_ids(transaction.effects);
    transaction.output_objects@.map_values(
        |object: ObjectSnapshot| output_step(filter, cache, stamp, index, effects, object),
    ) + transaction.effects.deleted@.map_values(
        |removed: ObjectRef| deleted_step(stamp, index, transaction.digest@, removed),
    )
}

/// The provenance that a checkpoint's counters give: none where one of them
/// does not fit a record's field.
pub open spec fn stamp_of(epoch: u128, checkpoint: u128, timestamp_ms: u128) -> Option<
    Provenance,
> {
    if fits(epoch) && fits(checkpoint) && fits(timestamp_ms) {
        Some(
            Provenance {
                checkpoint: checkpoint as u64,
                epoch: epoch as u64,
                timestamp_ms: timestamp_ms as u64,
            },
        )
    } else {
        None
    }
}

/// The index with which the steps of a transaction are taken.
pub open spec fn transaction_index(
    filter: FilterView,
    cache: Map<Seq<char>, Seq<char>>,
    epoch: u128,
    checkpoint: u128,
    timestamp_ms: u128,
    transaction: CheckpointTransaction,
) -> Seq<PriorView> {
    index_of(
        filter,
        cache,
        transaction.input_objects@,
        stamp_of(epoch, checkpoint, timestamp_ms),
    )
}

/// What processing one transaction does.
///
/// The index is built first, and nothing is emitted where that fails. Then
/// come the steps. The checkpoint's counters are narrowed only for an object
/// that matches the filter, as its own counters are: a transaction that
/// touches no such object succeeds and emits nothing, whatever the
/// checkpoint's counters.
pub open spec fn transaction_outcome(
    filter: FilterView,
    cache: Map<Seq<char>, Seq<char>>,
    epoch: u128,
    checkpoint: u128,
    timestamp_ms: u128,
    transaction: CheckpointTransaction,
) -> Outcome {
    let stamp = stamp_of(epoch, checkpoint, timestamp_ms);
    if index_failure(filter, cache, stamp, transaction.input_objects@) is Some {
        failed(index_failure(filter, cache, stamp, transaction.input_objects@)->0)
    } else {
        sequenced(transaction_steps(filter, cache, stamp, transaction))
    }
}

/// What processing a checkpoint does: its transactions in order, up to the
/// first that fails.
pub open spec fn checkpoint_outcome(
    filter: FilterView,
    cache: Map<Seq<char>, Seq<char>>,
    checkpoint: CheckpointData,
) -> Outcome {
    sequenced(
        checkpoint.transactions@.map_values(
            |transaction: CheckpointTransaction|
                transaction_outcome(
                    filter,
                    cache,
                    checkpoint.checkpoint_summary.epoch,
                    checkpoint.checkpoint_summary.sequence_number,
                    checkpoint.checkpoint_summary.timestamp_ms,
                    transaction,
                ),
        ),
    )
}

/// An object that cannot be processed before its package has been fetched:
/// it is tracked, a package filter is set, and the cache does not hold the
/// package that its type names.
pub open spec fn awaits_package(
    filter: FilterView,
    cache: Map<Seq<char>, Seq<char>>,
    object: ObjectSnapshot,
) -> bool {
    is_tracked(filter, object) && filter_verdict(filter.package, cache, object.package@) is Err
}

/// `found`, and after it the package of each of `objects` that awaits one and
/// whose package was not listed yet, in the order of `objects`.
pub open spec fn with_awaited(
    filter: FilterView,
    cache: Map<Seq<char>, Seq<char>>,
    found: Seq<Seq<char>>,
    objects: Seq<ObjectSnapshot>,
) -> Seq<Seq<char>>
    decreases objects.len(),
{
    if objects.len() == 0 {
        found
    } else {
        let before = with_awaited(filter, cache, found, objects.drop_last());
        let last = objects.last();
        if awaits_package(filter, cache, last) && !before.contains(last.package@) {
            before.push(last.package@)
        } else {
            before
        }
    }
}

/// The packages that have to be fetched before `transactions` can be
/// processed: those that an input or output object awaits, each once, in the
/// order in which the objects are met: transaction by transaction, the inputs
/// of each before its outputs.
pub open spec fn missing_packages(
    filter: FilterView,
    cache: Map<Seq<char>, Seq<char>>,
    transactions: Seq<CheckpointTransaction>,
) -> Seq<Seq<char>>
    decreases transactions.len(),
{
    if transactions.len() == 0 {
        Seq::empty()
    } else {
        with_awaited(
            filter,
            cache,
            with_awaited(
                filter,
                cache,
                missing_packages(filter, cache, transactions.drop_last()),
                transactions.last().input_objects@,
            ),
            transactions.last().output_objects@,
        )
    }
}

/// What a read does to a buffer: it hands out all of it and leaves none.
pub open spec fn drained(buffer: Seq<EntryView>) -> (Seq<EntryView>, Seq<EntryView>) {
    (buffer, Seq::empty())
}

/// The package cache after a checkpoint: where the checkpoint ended an epoch
/// and did not fail, the protocol's packages are gone from it.
pub open spec fn cache_after(
    cache: Map<Seq<char>, Seq<char>>,
    system_packages: Set<Seq<char>>,
    error: Option<OwnershipError>,
    end_of_epoch: bool,
) -> Map<Seq<char>, Seq<char>> {
    if error is None && end_of_epoch {
        cache.remove_keys(system_packages)
    } else {
        cache
    }
}

/// Steps after one that failed change nothing.
pub proof fn lemma_sequenced_stops(steps: Seq<Outcome>, k: int)
    requires
        0 <= k <= steps.len(),
        sequenced(steps.take(k)).error is Some,
    ensures
        sequenced(steps) == sequenced(steps.take(k)),
    decreases steps.len(),
{
    if k == steps.len() {
        assert(steps.take(k) =~= steps);
    } else {
        assert(steps.drop_last().take(k) =~= steps.take(k));
        lemma_sequenced_stops(steps.drop_last(), k);
    }
}

/// One more step, after steps that did not fail.
pub proof fn lemma_sequenced_next(steps: Seq<Outcome>, k: int)
    requires
        0 <= k < steps.len(),
        sequenced(steps.take(k)).error is None,
    ensures
        sequenced(steps.take(k + 1)) == (Outcome {
            entries: sequenced(steps.take(k)).entries + steps[k].entries,
            error: steps[k].error,
        }),
{
    assert(steps.take(k + 1).drop_last() =~= steps.take(k));
}

} // verus!
