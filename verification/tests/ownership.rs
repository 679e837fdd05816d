use coin_ownership::accumulator::Accumulator;
use coin_ownership::builder::{
    append_deleted, append_output, append_transaction, build_index, carry_previous, find_prior,
    list_awaited, observe, passes_package_filter, stamp, tracks, unresolved_packages,
};
use coin_ownership::cache::PackageCache;
use coin_ownership::handler::OwnershipHandler;
use coin_ownership::status::{collect_ids, contains_id, ObjectStatusTracker};
use coin_ownership::transition::Provenance;
use coin_ownership::types::{
    copy_text, narrow, same_text, CheckpointData, CheckpointSummary, CheckpointTransaction,
    FileType, ObjectRef, ObjectSnapshot, ObjectStatus, OwnerType, OwnershipEntry, OwnershipError,
    TransactionEffects, TypeFilter, TRACKED_COIN_TYPE,
};

const SUI: &str = "0x2::sui::SUI";
const FRAMEWORK: &str = "0x2";

fn coin(id: &str, version: u128, owner: &str, balance: u128) -> ObjectSnapshot {
    ObjectSnapshot {
        object_id: id.to_string(),
        version,
        owner_type: OwnerType::AddressOwner,
        owner_address: Some(owner.to_string()),
        previous_transaction: format!("digest-of-{}-v{}", id, version),
        coin_type: Some(SUI.to_string()),
        coin_balance: balance,
        package: FRAMEWORK.to_string(),
    }
}

fn reference(id: &str, version: u128) -> ObjectRef {
    ObjectRef { object_id: id.to_string(), version }
}

fn no_effects() -> TransactionEffects {
    TransactionEffects {
        created: vec![],
        mutated: vec![],
        deleted: vec![],
        wrapped: vec![],
        unwrapped: vec![],
    }
}

fn transaction(
    digest: &str,
    inputs: Vec<ObjectSnapshot>,
    outputs: Vec<ObjectSnapshot>,
    effects: TransactionEffects,
) -> CheckpointTransaction {
    CheckpointTransaction {
        digest: digest.to_string(),
        input_objects: inputs,
        output_objects: outputs,
        effects,
    }
}

fn checkpoint(
    sequence_number: u128,
    end_of_epoch: bool,
    transactions: Vec<CheckpointTransaction>,
) -> CheckpointData {
    CheckpointData {
        checkpoint_summary: CheckpointSummary {
            epoch: 2,
            sequence_number,
            timestamp_ms: 1_700_000_000_000,
            end_of_epoch,
        },
        transactions,
    }
}

fn system_packages() -> Vec<String> {
    vec!["0x1".to_string(), "0x2".to_string(), "0x3".to_string()]
}

fn handler() -> OwnershipHandler {
    OwnershipHandler::new(&None, system_packages())
}

fn sui_filter(package: Option<&str>) -> TypeFilter {
    TypeFilter { coin_type: SUI.to_string(), package: package.map(|p| p.to_string()) }
}

fn stamp_of_test() -> Provenance {
    Provenance { checkpoint: 9, epoch: 2, timestamp_ms: 1000 }
}

#[test]
fn transfer_gives_transfer_out_then_transfer_in() {
    let mut stage = handler();
    let tx = transaction(
        "T1",
        vec![coin("0xO", 3, "0xA", 100)],
        vec![coin("0xO", 4, "0xB", 100)],
        no_effects(),
    );
    assert_eq!(stage.process_transaction(2, 9, 1000, &tx), Ok(()));
    let entries = stage.read_and_clear();
    assert_eq!(entries.len(), 2);

    let out = &entries[0];
    assert_eq!(out.object_id, "0xO");
    assert_eq!(out.version, 4);
    assert_eq!(out.owner_address, Some("0xA".to_string()));
    assert_eq!(out.object_status, ObjectStatus::TransferOut);
    assert_eq!(out.coin_balance, 0);
    assert_eq!(out.previous_owner, Some("0xA".to_string()));
    assert_eq!(out.previous_version, Some(3));
    assert_eq!(out.previous_checkpoint, Some(9));
    assert_eq!(out.previous_coin_type, Some(SUI.to_string()));
    assert_eq!(out.previous_type, Some(OwnerType::AddressOwner));

    let into = &entries[1];
    assert_eq!(into.object_id, "0xO");
    assert_eq!(into.version, 4);
    assert_eq!(into.owner_address, Some("0xB".to_string()));
    assert_eq!(into.object_status, ObjectStatus::TransferIn);
    assert_eq!(into.coin_balance, 100);
    assert_eq!(into.previous_owner, Some("0xA".to_string()));
    assert_eq!(into.previous_version, Some(3));
    assert_eq!(into.previous_checkpoint, Some(9));
    assert_eq!(into.coin_type, Some(SUI.to_string()));
}

#[test]
fn transfer_entries_carry_the_whole_record() {
    let mut stage = handler();
    let mut output = coin("0xO", 4, "0xB", 100);
    output.owner_type = OwnerType::Object;
    let tx = transaction("T1", vec![coin("0xO", 3, "0xA", 70)], vec![output], no_effects());
    assert_eq!(stage.process_transaction(2, 9, 1000, &tx), Ok(()));
    let entries = stage.read_and_clear();
    let expected_out = OwnershipEntry {
        object_id: "0xO".to_string(),
        version: 4,
        checkpoint: 9,
        epoch: 2,
        timestamp_ms: 1000,
        owner_type: Some(OwnerType::Object),
        owner_address: Some("0xA".to_string()),
        object_status: ObjectStatus::TransferOut,
        previous_transaction: "digest-of-0xO-v4".to_string(),
        coin_type: Some(SUI.to_string()),
        coin_balance: 0,
        previous_owner: Some("0xA".to_string()),
        previous_version: Some(3),
        previous_checkpoint: Some(9),
        previous_coin_type: Some(SUI.to_string()),
        previous_type: Some(OwnerType::AddressOwner),
    };
    let expected_in = OwnershipEntry {
        owner_address: Some("0xB".to_string()),
        object_status: ObjectStatus::TransferIn,
        coin_balance: 100,
        ..expected_out.clone()
    };
    assert_eq!(entries, vec![expected_out, expected_in]);
}

#[test]
fn new_object_gives_one_created_entry() {
    let mut stage = handler();
    let mut effects = no_effects();
    effects.created.push(reference("0xO", 1));
    let tx = transaction("T1", vec![], vec![coin("0xO", 1, "0xA", 50)], effects);
    assert_eq!(stage.process_transaction(2, 9, 1000, &tx), Ok(()));
    let entries = stage.read_and_clear();
    assert_eq!(
        entries,
        vec![OwnershipEntry {
            object_id: "0xO".to_string(),
            version: 1,
            checkpoint: 9,
            epoch: 2,
            timestamp_ms: 1000,
            owner_type: Some(OwnerType::AddressOwner),
            owner_address: Some("0xA".to_string()),
            object_status: ObjectStatus::Created,
            previous_transaction: "digest-of-0xO-v1".to_string(),
            coin_type: Some(SUI.to_string()),
            coin_balance: 50,
            previous_owner: None,
            previous_version: None,
            previous_checkpoint: None,
            previous_coin_type: None,
            previous_type: None,
        }]
    );
}

#[test]
fn deleted_object_gives_one_deleted_entry() {
    let mut stage = handler();
    let mut effects = no_effects();
    effects.deleted.push(reference("0xO", 6));
    let tx = transaction("T9", vec![coin("0xO", 5, "0xA", 10)], vec![], effects);
    assert_eq!(stage.process_transaction(2, 9, 1000, &tx), Ok(()));
    let entries = stage.read_and_clear();
    assert_eq!(
        entries,
        vec![OwnershipEntry {
            object_id: "0xO".to_string(),
            version: 6,
            checkpoint: 9,
            epoch: 2,
            timestamp_ms: 1000,
            owner_type: Some(OwnerType::AddressOwner),
            owner_address: Some("0xA".to_string()),
            object_status: ObjectStatus::Deleted,
            previous_transaction: "T9".to_string(),
            coin_type: Some(SUI.to_string()),
            coin_balance: 0,
            previous_owner: None,
            previous_version: None,
            previous_checkpoint: None,
            previous_coin_type: None,
            previous_type: None,
        }]
    );
}

#[test]
fn same_owner_gives_one_mutated_entry_without_previous() {
    let mut stage = handler();
    let mut effects = no_effects();
    effects.mutated.push(reference("0xO", 4));
    let tx = transaction(
        "T1",
        vec![coin("0xO", 3, "0xA", 100)],
        vec![coin("0xO", 4, "0xA", 60)],
        effects,
    );
    assert_eq!(stage.process_transaction(2, 9, 1000, &tx), Ok(()));
    let entries = stage.read_and_clear();
    assert_eq!(entries.len(), 1);
    assert_eq!(entries[0].object_status, ObjectStatus::Mutated);
    assert_eq!(entries[0].coin_balance, 60);
    assert_eq!(entries[0].version, 4);
    assert_eq!(entries[0].owner_address, Some("0xA".to_string()));
    assert_eq!(entries[0].previous_owner, None);
    assert_eq!(entries[0].previous_version, None);
    assert_eq!(entries[0].previous_checkpoint, None);
    assert_eq!(entries[0].previous_coin_type, None);
    assert_eq!(entries[0].previous_type, None);
}

#[test]
fn transfers_are_twice_the_objects_that_changed_owner() {
    let mut stage = handler();
    let mut effects = no_effects();
    effects.mutated.push(reference("0x3", 8));
    effects.created.push(reference("0x4", 1));
    effects.deleted.push(reference("0x5", 3));
    let tx = transaction(
        "T1",
        vec![
            coin("0x1", 1, "0xA", 10),
            coin("0x2", 1, "0xB", 20),
            coin("0x3", 7, "0xC", 30),
            coin("0x5", 2, "0xC", 5),
        ],
        vec![
            coin("0x1", 2, "0xB", 10),
            coin("0x2", 2, "0xA", 20),
            coin("0x3", 8, "0xC", 25),
            coin("0x4", 1, "0xD", 5),
        ],
        effects,
    );
    assert_eq!(stage.process_transaction(2, 9, 1000, &tx), Ok(()));
    let entries = stage.read_and_clear();
    let outs: Vec<&OwnershipEntry> =
        entries.iter().filter(|e| e.object_status == ObjectStatus::TransferOut).collect();
    let ins: Vec<&OwnershipEntry> =
        entries.iter().filter(|e| e.object_status == ObjectStatus::TransferIn).collect();
    assert_eq!(outs.len(), 2);
    assert_eq!(ins.len(), 2);
    assert!(outs.iter().all(|e| e.coin_balance == 0));
    let statuses: Vec<ObjectStatus> = entries.iter().map(|e| e.object_status).collect();
    assert_eq!(
        statuses,
        vec![
            ObjectStatus::TransferOut,
            ObjectStatus::TransferIn,
            ObjectStatus::TransferOut,
            ObjectStatus::TransferIn,
            ObjectStatus::Mutated,
            ObjectStatus::Created,
            ObjectStatus::Deleted,
        ]
    );
    let ids: Vec<&str> = entries.iter().map(|e| e.object_id.as_str()).collect();
    assert_eq!(ids, vec!["0x1", "0x1", "0x2", "0x2", "0x3", "0x4", "0x5"]);
}

#[test]
fn second_read_is_empty() {
    let mut stage = handler();
    let tx = transaction(
        "T1",
        vec![coin("0xO", 3, "0xA", 100)],
        vec![coin("0xO", 4, "0xB", 100)],
        no_effects(),
    );
    assert_eq!(stage.process_checkpoint(&checkpoint(9, false, vec![tx])), Ok(()));
    assert_eq!(stage.read_and_clear().len(), 2);
    assert_eq!(stage.read_and_clear(), vec![]);
    assert_eq!(stage.read_and_clear(), vec![]);
}

#[test]
fn read_of_a_new_stage_is_empty() {
    let mut stage = handler();
    assert_eq!(stage.read_and_clear(), vec![]);
}

#[test]
fn end_of_epoch_evicts_system_packages() {
    let mut stage = handler();
    stage.remember("0x2".to_string(), "0x2".to_string());
    stage.remember("0x3".to_string(), "0x3".to_string());
    stage.remember("0xabc".to_string(), "0xdef".to_string());
    assert_eq!(stage.resolve(&"0x2".to_string()), Some("0x2".to_string()));

    assert_eq!(stage.process_checkpoint(&checkpoint(9, false, vec![])), Ok(()));
    assert_eq!(stage.resolve(&"0x2".to_string()), Some("0x2".to_string()));

    assert_eq!(stage.process_checkpoint(&checkpoint(10, true, vec![])), Ok(()));
    assert_eq!(stage.resolve(&"0x1".to_string()), None);
    assert_eq!(stage.resolve(&"0x2".to_string()), None);
    assert_eq!(stage.resolve(&"0x3".to_string()), None);
    assert_eq!(stage.resolve(&"0xabc".to_string()), Some("0xdef".to_string()));

    stage.remember("0x2".to_string(), "0x2".to_string());
    assert_eq!(stage.resolve(&"0x2".to_string()), Some("0x2".to_string()));
}

#[test]
fn failed_checkpoint_does_not_evict() {
    let mut stage = handler();
    stage.remember("0x2".to_string(), "0x2".to_string());
    let tx = transaction("T1", vec![], vec![coin("0xO", 1, "0xA", 50)], no_effects());
    assert_eq!(
        stage.process_checkpoint(&checkpoint(10, true, vec![tx])),
        Err(OwnershipError::StatusNotFound)
    );
    assert_eq!(stage.resolve(&"0x2".to_string()), Some("0x2".to_string()));
}

#[test]
fn checkpoint_counters_stamp_every_entry() {
    let mut stage = handler();
    let mut effects = no_effects();
    effects.created.push(reference("0xO", 1));
    let tx = transaction("T1", vec![], vec![coin("0xO", 1, "0xA", 50)], effects);
    assert_eq!(stage.process_checkpoint(&checkpoint(77, false, vec![tx])), Ok(()));
    let entries = stage.read_and_clear();
    assert_eq!(entries.len(), 1);
    assert_eq!(entries[0].checkpoint, 77);
    assert_eq!(entries[0].epoch, 2);
    assert_eq!(entries[0].timestamp_ms, 1_700_000_000_000);
}

#[test]
fn entries_keep_transaction_order_and_accumulate() {
    let mut stage = handler();
    let mut created = no_effects();
    created.created.push(reference("0x1", 1));
    let first = transaction("T1", vec![], vec![coin("0x1", 1, "0xA", 5)], created);
    let second = transaction(
        "T2",
        vec![coin("0x1", 1, "0xA", 5)],
        vec![coin("0x1", 2, "0xB", 5)],
        no_effects(),
    );
    assert_eq!(stage.process_checkpoint(&checkpoint(9, false, vec![first, second])), Ok(()));
    let mut deleted = no_effects();
    deleted.deleted.push(reference("0x1", 3));
    let third = transaction("T3", vec![coin("0x1", 2, "0xB", 5)], vec![], deleted);
    assert_eq!(stage.process_checkpoint(&checkpoint(10, false, vec![third])), Ok(()));
    let entries = stage.read_and_clear();
    let seen: Vec<(ObjectStatus, u64, u64)> =
        entries.iter().map(|e| (e.object_status, e.version, e.checkpoint)).collect();
    assert_eq!(
        seen,
        vec![
            (ObjectStatus::Created, 1, 9),
            (ObjectStatus::TransferOut, 2, 9),
            (ObjectStatus::TransferIn, 2, 9),
            (ObjectStatus::Deleted, 3, 10),
        ]
    );
}

#[test]
fn deleted_entries_follow_output_entries() {
    let mut stage = handler();
    let mut effects = no_effects();
    effects.deleted.push(reference("0x1", 9));
    effects.created.push(reference("0x2", 1));
    let tx = transaction(
        "T1",
        vec![coin("0x1", 8, "0xA", 5)],
        vec![coin("0x2", 1, "0xA", 5)],
        effects,
    );
    assert_eq!(stage.process_transaction(2, 9, 1000, &tx), Ok(()));
    let entries = stage.read_and_clear();
    assert_eq!(entries.len(), 2);
    assert_eq!(entries[0].object_status, ObjectStatus::Created);
    assert_eq!(entries[1].object_status, ObjectStatus::Deleted);
    assert_eq!(entries[1].object_id, "0x1");
}

#[test]
fn deleted_object_without_prior_state_gives_nothing() {
    let mut stage = handler();
    let mut effects = no_effects();
    effects.deleted.push(reference("0x1", 9));
    effects.deleted.push(reference("0x7", u128::MAX));
    let tx = transaction("T1", vec![], vec![], effects);
    assert_eq!(stage.process_transaction(2, 9, 1000, &tx), Ok(()));
    assert_eq!(stage.read_and_clear(), vec![]);
}

#[test]
fn wrapped_object_is_not_recorded_as_deleted() {
    let mut stage = handler();
    let mut effects = no_effects();
    effects.wrapped.push(reference("0x1", 9));
    let tx = transaction("T1", vec![coin("0x1", 8, "0xA", 5)], vec![], effects);
    assert_eq!(stage.process_transaction(2, 9, 1000, &tx), Ok(()));
    assert_eq!(stage.read_and_clear(), vec![]);
}

#[test]
fn untracked_objects_give_nothing() {
    let mut stage = handler();
    let mut other_coin = coin("0x1", 2, "0xB", 5);
    other_coin.coin_type = Some("0xabc::usd::USD".to_string());
    let mut not_a_coin = coin("0x2", 2, "0xB", 5);
    not_a_coin.coin_type = None;
    let mut effects = no_effects();
    effects.deleted.push(reference("0x3", 4));
    let mut untracked_input = coin("0x3", 3, "0xA", 1);
    untracked_input.coin_type = None;
    let tx = transaction("T1", vec![untracked_input], vec![other_coin, not_a_coin], effects);
    assert_eq!(stage.process_transaction(2, 9, 1000, &tx), Ok(()));
    assert_eq!(stage.read_and_clear(), vec![]);
}

#[test]
fn untracked_input_is_no_prior_state() {
    let mut stage = handler();
    let mut input = coin("0xO", 3, "0xA", 100);
    input.coin_type = Some("0xabc::usd::USD".to_string());
    let mut effects = no_effects();
    effects.mutated.push(reference("0xO", 4));
    let tx = transaction("T1", vec![input], vec![coin("0xO", 4, "0xB", 100)], effects);
    assert_eq!(stage.process_transaction(2, 9, 1000, &tx), Ok(()));
    let entries = stage.read_and_clear();
    assert_eq!(entries.len(), 1);
    assert_eq!(entries[0].object_status, ObjectStatus::Mutated);
    assert_eq!(entries[0].previous_owner, None);
}

#[test]
fn narrowing_fails_on_checkpoint_counters() {
    let too_big = u64::MAX as u128 + 1;
    let mut created = no_effects();
    created.created.push(reference("0xO", 1));
    let tx = transaction("T1", vec![], vec![coin("0xO", 1, "0xA", 50)], created);
    let mut stage = handler();
    assert_eq!(stage.process_transaction(too_big, 9, 1000, &tx), Err(OwnershipError::Narrowing));
    assert_eq!(stage.process_transaction(2, too_big, 1000, &tx), Err(OwnershipError::Narrowing));
    assert_eq!(stage.process_transaction(2, 9, too_big, &tx), Err(OwnershipError::Narrowing));
    assert_eq!(stage.read_and_clear(), vec![]);
    assert_eq!(
        stage.process_transaction(u64::MAX as u128, u64::MAX as u128, u64::MAX as u128, &tx),
        Ok(())
    );
    let entries = stage.read_and_clear();
    assert_eq!(entries.len(), 1);
    assert_eq!(entries[0].epoch, u64::MAX);
    assert_eq!(entries[0].checkpoint, u64::MAX);
    assert_eq!(entries[0].timestamp_ms, u64::MAX);
}

#[test]
fn checkpoint_counters_are_narrowed_for_a_matching_input() {
    let too_big = u64::MAX as u128 + 1;
    let tx = transaction("T1", vec![coin("0xO", 1, "0xA", 50)], vec![], no_effects());
    let mut stage = handler();
    assert_eq!(stage.process_transaction(too_big, 9, 1000, &tx), Err(OwnershipError::Narrowing));
    assert_eq!(stage.process_transaction(2, too_big, 1000, &tx), Err(OwnershipError::Narrowing));
    assert_eq!(stage.process_transaction(2, 9, too_big, &tx), Err(OwnershipError::Narrowing));
    assert_eq!(stage.process_transaction(2, 9, 1000, &tx), Ok(()));
    assert_eq!(stage.read_and_clear(), vec![]);
}

#[test]
fn narrowing_fails_on_object_counters() {
    let too_big = u64::MAX as u128 + 1;
    let mut created = no_effects();
    created.created.push(reference("0xO", 1));

    let mut stage = handler();
    let tx = transaction("T1", vec![coin("0xO", too_big, "0xA", 1)], vec![], no_effects());
    assert_eq!(stage.process_transaction(2, 9, 1000, &tx), Err(OwnershipError::Narrowing));
    let tx = transaction("T1", vec![coin("0xO", 1, "0xA", too_big)], vec![], no_effects());
    assert_eq!(stage.process_transaction(2, 9, 1000, &tx), Err(OwnershipError::Narrowing));
    let tx = transaction("T1", vec![], vec![coin("0xO", too_big, "0xA", 1)], created.clone());
    assert_eq!(stage.process_transaction(2, 9, 1000, &tx), Err(OwnershipError::Narrowing));
    let tx = transaction("T1", vec![], vec![coin("0xO", 1, "0xA", too_big)], created.clone());
    assert_eq!(stage.process_transaction(2, 9, 1000, &tx), Err(OwnershipError::Narrowing));
    let mut deleted = no_effects();
    deleted.deleted.push(reference("0xO", too_big));
    let tx = transaction("T1", vec![coin("0xO", 1, "0xA", 1)], vec![], deleted);
    assert_eq!(stage.process_transaction(2, 9, 1000, &tx), Err(OwnershipError::Narrowing));
    assert_eq!(stage.read_and_clear(), vec![]);

    let tx = transaction(
        "T1",
        vec![],
        vec![coin("0xO", u64::MAX as u128, "0xA", u64::MAX as u128)],
        created,
    );
    assert_eq!(stage.process_transaction(2, 9, 1000, &tx), Ok(()));
    let entries = stage.read_and_clear();
    assert_eq!(entries[0].version, u64::MAX);
    assert_eq!(entries[0].coin_balance, u64::MAX);
}

#[test]
fn untracked_counters_are_never_narrowed() {
    let too_big = u64::MAX as u128 + 1;
    let mut input = coin("0x1", too_big, "0xA", too_big);
    input.coin_type = None;
    let mut output = coin("0x2", too_big, "0xA", too_big);
    output.coin_type = None;
    let mut stage = handler();
    let tx = transaction("T1", vec![input], vec![output], no_effects());
    assert_eq!(stage.process_transaction(2, 9, 1000, &tx), Ok(()));
}

#[test]
fn object_in_no_effect_set_fails() {
    let mut stage = handler();
    let tx = transaction("T1", vec![], vec![coin("0xO", 1, "0xA", 50)], no_effects());
    assert_eq!(stage.process_transaction(2, 9, 1000, &tx), Err(OwnershipError::StatusNotFound));
    let tx = transaction(
        "T1",
        vec![coin("0xO", 1, "0xA", 50)],
        vec![coin("0xO", 2, "0xA", 50)],
        no_effects(),
    );
    assert_eq!(stage.process_transaction(2, 9, 1000, &tx), Err(OwnershipError::StatusNotFound));
    assert_eq!(stage.read_and_clear(), vec![]);
}

#[test]
fn failure_keeps_what_was_appended_before() {
    let mut stage = handler();
    let mut created = no_effects();
    created.created.push(reference("0x1", 1));
    let good = transaction("T1", vec![], vec![coin("0x1", 1, "0xA", 5)], created.clone());
    let bad = transaction(
        "T2",
        vec![],
        vec![coin("0x1", 1, "0xA", 5), coin("0x2", 1, "0xA", 5)],
        created.clone(),
    );
    let never = transaction("T3", vec![], vec![coin("0x1", 1, "0xA", 5)], created);
    assert_eq!(
        stage.process_checkpoint(&checkpoint(9, false, vec![good, bad, never])),
        Err(OwnershipError::StatusNotFound)
    );
    let entries = stage.read_and_clear();
    assert_eq!(entries.len(), 2);
    assert_eq!(entries[0].previous_transaction, "digest-of-0x1-v1");
    assert_eq!(entries[1].object_id, "0x1");
}

#[test]
fn package_filter_needs_the_package() {
    let mut stage = OwnershipHandler::new(&Some("0x2".to_string()), system_packages());
    let mut created = no_effects();
    created.created.push(reference("0xO", 1));
    let tx = transaction("T1", vec![], vec![coin("0xO", 1, "0xA", 50)], created);
    let cp = checkpoint(9, false, vec![tx]);
    assert_eq!(stage.unresolved_packages(&cp), vec!["0x2".to_string()]);
    assert_eq!(stage.process_checkpoint(&cp), Err(OwnershipError::UnresolvedPackage));
    assert_eq!(stage.read_and_clear(), vec![]);

    stage.remember("0x2".to_string(), "0x2".to_string());
    assert_eq!(stage.unresolved_packages(&cp), Vec::<String>::new());
    assert_eq!(stage.process_checkpoint(&cp), Ok(()));
    assert_eq!(stage.read_and_clear().len(), 1);
}

#[test]
fn package_filter_turns_other_packages_away() {
    let mut stage = OwnershipHandler::new(&Some("0xfeed".to_string()), system_packages());
    stage.remember("0x2".to_string(), "0x2".to_string());
    stage.remember("0xbeef".to_string(), "0xfeed".to_string());
    let mut created = no_effects();
    created.created.push(reference("0x1", 1));
    created.created.push(reference("0x2", 1));
    let mut upgraded = coin("0x2", 1, "0xA", 7);
    upgraded.package = "0xbeef".to_string();
    let tx = transaction("T1", vec![], vec![coin("0x1", 1, "0xA", 50), upgraded], created);
    assert_eq!(stage.process_transaction(2, 9, 1000, &tx), Ok(()));
    let entries = stage.read_and_clear();
    assert_eq!(entries.len(), 1);
    assert_eq!(entries[0].object_id, "0x2");
    assert_eq!(entries[0].coin_balance, 7);
}

#[test]
fn no_filter_needs_no_package() {
    let stage = handler();
    let tx = transaction("T1", vec![], vec![coin("0xO", 1, "0xA", 50)], no_effects());
    assert_eq!(stage.unresolved_packages(&checkpoint(9, false, vec![tx])), Vec::<String>::new());
}

#[test]
fn unresolved_packages_lists_each_package_once() {
    let stage = OwnershipHandler::new(&Some("0x2".to_string()), system_packages());
    let mut other = coin("0x3", 1, "0xA", 1);
    other.package = "0x9".to_string();
    let mut untracked = coin("0x4", 1, "0xA", 1);
    untracked.coin_type = None;
    untracked.package = "0x8".to_string();
    let first = transaction(
        "T1",
        vec![],
        vec![coin("0x1", 1, "0xA", 1), coin("0x2", 1, "0xA", 1)],
        no_effects(),
    );
    let second =
        transaction("T2", vec![], vec![other, untracked, coin("0x5", 1, "0xA", 1)], no_effects());
    assert_eq!(
        stage.unresolved_packages(&checkpoint(9, false, vec![first, second])),
        vec!["0x2".to_string(), "0x9".to_string()]
    );
}

#[test]
fn new_stage_tracks_the_coin_type() {
    assert_eq!(TRACKED_COIN_TYPE, "0x2::sui::SUI");
    let stage = handler();
    assert_eq!(stage.resolve(&"0x2".to_string()), None);
    assert_eq!(stage.file_type(), FileType::Ownership);
    assert_eq!(stage.name(), "ownership");
}

#[test]
fn classifier_reads_each_effect_set() {
    let effects = TransactionEffects {
        created: vec![reference("0x1", 1)],
        mutated: vec![reference("0x2", 1), reference("0x22", 1)],
        deleted: vec![reference("0x3", 1)],
        wrapped: vec![reference("0x4", 1)],
        unwrapped: vec![reference("0x5", 1)],
    };
    let tracker = ObjectStatusTracker::new(&effects);
    assert_eq!(tracker.get_object_status(&"0x1".to_string()), Some(ObjectStatus::Created));
    assert_eq!(tracker.get_object_status(&"0x2".to_string()), Some(ObjectStatus::Mutated));
    assert_eq!(tracker.get_object_status(&"0x22".to_string()), Some(ObjectStatus::Mutated));
    assert_eq!(tracker.get_object_status(&"0x3".to_string()), Some(ObjectStatus::Deleted));
    assert_eq!(tracker.get_object_status(&"0x4".to_string()), Some(ObjectStatus::Wrapped));
    assert_eq!(tracker.get_object_status(&"0x5".to_string()), Some(ObjectStatus::Unwrapped));
    assert_eq!(tracker.get_object_status(&"0x6".to_string()), None);
}

#[test]
fn classifier_takes_the_first_set_that_names_the_object() {
    let effects = TransactionEffects {
        created: vec![reference("0x1", 1)],
        mutated: vec![reference("0x1", 1), reference("0x2", 1)],
        deleted: vec![reference("0x2", 1), reference("0x3", 1)],
        wrapped: vec![reference("0x3", 1), reference("0x4", 1)],
        unwrapped: vec![reference("0x4", 1)],
    };
    let tracker = ObjectStatusTracker::new(&effects);
    assert_eq!(tracker.get_object_status(&"0x1".to_string()), Some(ObjectStatus::Created));
    assert_eq!(tracker.get_object_status(&"0x2".to_string()), Some(ObjectStatus::Mutated));
    assert_eq!(tracker.get_object_status(&"0x3".to_string()), Some(ObjectStatus::Deleted));
    assert_eq!(tracker.get_object_status(&"0x4".to_string()), Some(ObjectStatus::Wrapped));
}

#[test]
fn classifier_of_no_effects_finds_nothing() {
    let tracker = ObjectStatusTracker::new(&no_effects());
    assert_eq!(tracker.get_object_status(&"0x1".to_string()), None);
}

#[test]
fn ids_are_collected_in_order() {
    let refs = vec![reference("0x2", 1), reference("0x1", 5), reference("0x2", 7)];
    let ids = collect_ids(&refs);
    assert_eq!(ids, vec!["0x2".to_string(), "0x1".to_string(), "0x2".to_string()]);
    assert!(contains_id(&ids, &"0x1".to_string()));
    assert!(!contains_id(&ids, &"0x3".to_string()));
    assert!(!contains_id(&vec![], &"0x1".to_string()));
}

#[test]
fn cache_remembers_and_evicts() {
    let mut cache = PackageCache::new();
    assert_eq!(cache.resolve(&"0x2".to_string()), None);
    cache.insert("0x2".to_string(), "0x2".to_string());
    cache.insert("0x9".to_string(), "0x7".to_string());
    assert_eq!(cache.resolve(&"0x2".to_string()), Some("0x2".to_string()));
    assert_eq!(cache.resolve(&"0x9".to_string()), Some("0x7".to_string()));
    cache.insert("0x9".to_string(), "0x8".to_string());
    assert_eq!(cache.resolve(&"0x9".to_string()), Some("0x8".to_string()));
    cache.evict(&vec!["0x2".to_string(), "0x5".to_string()]);
    assert_eq!(cache.resolve(&"0x2".to_string()), None);
    assert_eq!(cache.resolve(&"0x9".to_string()), Some("0x8".to_string()));
    cache.evict(&vec![]);
    assert_eq!(cache.resolve(&"0x9".to_string()), Some("0x8".to_string()));
    cache.evict(&vec!["0x9".to_string(), "0x9".to_string()]);
    assert_eq!(cache.resolve(&"0x9".to_string()), None);
}

#[test]
fn narrow_keeps_what_fits() {
    assert_eq!(narrow(0), Ok(0));
    assert_eq!(narrow(100), Ok(100));
    assert_eq!(narrow(u64::MAX as u128), Ok(u64::MAX));
    assert_eq!(narrow(u64::MAX as u128 + 1), Err(OwnershipError::Narrowing));
    assert_eq!(narrow(u128::MAX), Err(OwnershipError::Narrowing));
}

#[test]
fn stamp_narrows_all_three_counters() {
    assert_eq!(stamp(2, 9, 1000), Some(Provenance { checkpoint: 9, epoch: 2, timestamp_ms: 1000 }));
    assert_eq!(
        stamp(u64::MAX as u128, 0, 1),
        Some(Provenance { checkpoint: 0, epoch: u64::MAX, timestamp_ms: 1 })
    );
    assert_eq!(stamp(u64::MAX as u128 + 1, 9, 1000), None);
    assert_eq!(stamp(2, u128::MAX, 1000), None);
    assert_eq!(stamp(2, 9, u128::MAX), None);
}

#[test]
fn optional_strings_compare_by_content() {
    let a = Some("0xA".to_string());
    let b = Some("0xB".to_string());
    assert!(same_text(&a, &Some("0xA".to_string())));
    assert!(!same_text(&a, &b));
    assert!(!same_text(&a, &None));
    assert!(!same_text(&None, &b));
    assert!(same_text(&None, &None));
    assert_eq!(copy_text(&a), a);
    assert_eq!(copy_text(&None), None);
}

#[test]
fn labels_are_the_exported_names() {
    assert_eq!(ObjectStatus::Created.label(), "Created");
    assert_eq!(ObjectStatus::Mutated.label(), "Mutated");
    assert_eq!(ObjectStatus::Deleted.label(), "Deleted");
    assert_eq!(ObjectStatus::Wrapped.label(), "Wrapped");
    assert_eq!(ObjectStatus::Unwrapped.label(), "Unwrapped");
    assert_eq!(ObjectStatus::TransferIn.label(), "Transfer In");
    assert_eq!(ObjectStatus::TransferOut.label(), "Transfer Out");
    assert_eq!(OwnerType::AddressOwner.label(), "AddressOwner");
    assert_eq!(OwnerType::Object.label(), "Object");
    assert_eq!(OwnerType::Shared.label(), "Shared");
    assert_eq!(OwnerType::Immutable.label(), "Immutable");
    assert_eq!(OwnershipError::Narrowing.message(), "a counter does not fit a 64-bit field");
    assert_eq!(OwnershipError::StatusNotFound.message(), "an output object is in no effect set");
    assert_eq!(OwnershipError::UnresolvedPackage.message(), "a package is not in the cache");
}

#[test]
fn index_holds_the_tracked_inputs() {
    let mut untracked = coin("0x2", 1, "0xB", 2);
    untracked.coin_type = None;
    let inputs = vec![coin("0x1", 3, "0xA", 10), untracked, coin("0x3", 4, "0xC", 30)];
    let index = build_index(&sui_filter(None), &PackageCache::new(), &inputs, Some(stamp_of_test())).unwrap();
    assert_eq!(index.len(), 2);
    assert_eq!(index[0].object_id, "0x1");
    assert_eq!(index[0].version, 3);
    assert_eq!(index[0].checkpoint, 9);
    assert_eq!(index[0].owner_type, OwnerType::AddressOwner);
    assert_eq!(index[0].owner_address, Some("0xA".to_string()));
    assert_eq!(index[0].coin_type, Some(SUI.to_string()));
    assert_eq!(index[0].coin_balance, 10);
    assert_eq!(index[1].object_id, "0x3");
    assert_eq!(find_prior(&index, &"0x3".to_string()), Some(1));
    assert_eq!(find_prior(&index, &"0x1".to_string()), Some(0));
    assert_eq!(find_prior(&index, &"0x2".to_string()), None);
}

#[test]
fn index_finds_the_first_of_two_states() {
    let inputs = vec![coin("0x1", 3, "0xA", 10), coin("0x1", 4, "0xB", 10)];
    let index = build_index(&sui_filter(None), &PackageCache::new(), &inputs, Some(stamp_of_test())).unwrap();
    assert_eq!(find_prior(&index, &"0x1".to_string()), Some(0));
}

#[test]
fn index_fails_on_a_counter_that_does_not_fit() {
    let inputs = vec![coin("0x1", 3, "0xA", 10), coin("0x2", u128::MAX, "0xA", 10)];
    assert!(matches!(
        build_index(&sui_filter(None), &PackageCache::new(), &inputs, Some(stamp_of_test())),
        Err(OwnershipError::Narrowing)
    ));
}

#[test]
fn filter_tracks_its_coin_type_only() {
    let filter = TypeFilter { coin_type: "0xabc::usd::USD".to_string(), package: None };
    let mut usd = coin("0x1", 1, "0xA", 1);
    usd.coin_type = Some("0xabc::usd::USD".to_string());
    assert!(tracks(&filter, &usd));
    assert!(!tracks(&filter, &coin("0x1", 1, "0xA", 1)));
    assert!(tracks(&sui_filter(None), &coin("0x1", 1, "0xA", 1)));
    let mut plain = coin("0x1", 1, "0xA", 1);
    plain.coin_type = None;
    assert!(!tracks(&sui_filter(None), &plain));
}

#[test]
fn package_filter_verdicts() {
    let mut cache = PackageCache::new();
    cache.insert("0x2".to_string(), "0x2".to_string());
    cache.insert("0xbeef".to_string(), "0xfeed".to_string());
    let none = sui_filter(None);
    let framework = sui_filter(Some("0x2"));
    assert_eq!(passes_package_filter(&none, &cache, &"0x77".to_string()), Ok(true));
    assert_eq!(passes_package_filter(&framework, &cache, &"0x2".to_string()), Ok(true));
    assert_eq!(passes_package_filter(&framework, &cache, &"0xbeef".to_string()), Ok(false));
    assert_eq!(
        passes_package_filter(&framework, &cache, &"0x77".to_string()),
        Err(OwnershipError::UnresolvedPackage)
    );
}

#[test]
fn observe_copies_the_object() {
    let object = coin("0xO", 4, "0xB", 100);
    let entry = observe(stamp_of_test(), &object, ObjectStatus::Unwrapped).unwrap();
    assert_eq!(entry.object_id, "0xO");
    assert_eq!(entry.version, 4);
    assert_eq!(entry.checkpoint, 9);
    assert_eq!(entry.epoch, 2);
    assert_eq!(entry.timestamp_ms, 1000);
    assert_eq!(entry.object_status, ObjectStatus::Unwrapped);
    assert_eq!(entry.previous_transaction, "digest-of-0xO-v4");
    assert_eq!(entry.coin_balance, 100);
    assert_eq!(entry.previous_version, None);
    assert!(matches!(
        observe(stamp_of_test(), &coin("0xO", u128::MAX, "0xB", 1), ObjectStatus::Created),
        Err(OwnershipError::Narrowing)
    ));
}

#[test]
fn steps_append_to_a_buffer() {
    let filter = sui_filter(None);
    let cache = PackageCache::new();
    let inputs = vec![coin("0x1", 3, "0xA", 10)];
    let index = build_index(&filter, &cache, &inputs, Some(stamp_of_test())).unwrap();
    let mut effects = no_effects();
    effects.unwrapped.push(reference("0x2", 1));
    let tracker = ObjectStatusTracker::new(&effects);
    let mut buffer = Vec::new();
    assert_eq!(
        append_output(
            &mut buffer,
            &filter,
            &cache,
            Some(stamp_of_test()),
            &index,
            &tracker,
            &coin("0x2", 1, "0xA", 5)
        ),
        Ok(())
    );
    assert_eq!(buffer.len(), 1);
    assert_eq!(buffer[0].object_status, ObjectStatus::Unwrapped);
    assert_eq!(
        append_deleted(
            &mut buffer,
            Some(stamp_of_test()),
            &index,
            &"T5".to_string(),
            &reference("0x1", 4)
        ),
        Ok(())
    );
    assert_eq!(buffer.len(), 2);
    assert_eq!(buffer[1].object_status, ObjectStatus::Deleted);
    assert_eq!(buffer[1].previous_transaction, "T5");
    assert_eq!(buffer[1].version, 4);
    assert_eq!(
        append_deleted(
            &mut buffer,
            Some(stamp_of_test()),
            &index,
            &"T5".to_string(),
            &reference("0x9", 4)
        ),
        Ok(())
    );
    assert_eq!(buffer.len(), 2);
}

#[test]
fn transaction_appends_after_what_is_buffered() {
    let filter = sui_filter(None);
    let cache = PackageCache::new();
    let mut buffer = vec![observe(
        stamp_of_test(),
        &coin("0x0", 1, "0xZ", 1),
        ObjectStatus::Created,
    )
    .unwrap()];
    let tx = transaction(
        "T1",
        vec![coin("0xO", 3, "0xA", 100)],
        vec![coin("0xO", 4, "0xB", 100)],
        no_effects(),
    );
    assert_eq!(append_transaction(&mut buffer, &filter, &cache, 2, 9, 1000, &tx), Ok(()));
    assert_eq!(buffer.len(), 3);
    assert_eq!(buffer[0].object_id, "0x0");
    assert_eq!(buffer[1].object_status, ObjectStatus::TransferOut);
    assert_eq!(buffer[2].object_status, ObjectStatus::TransferIn);
}

#[test]
fn owner_given_up_is_a_transfer() {
    let mut stage = handler();
    let mut shared = coin("0xO", 4, "0xA", 100);
    shared.owner_type = OwnerType::Shared;
    shared.owner_address = None;
    let tx = transaction("T1", vec![coin("0xO", 3, "0xA", 100)], vec![shared], no_effects());
    assert_eq!(stage.process_transaction(2, 9, 1000, &tx), Ok(()));
    let entries = stage.read_and_clear();
    assert_eq!(entries.len(), 2);
    assert_eq!(entries[0].owner_address, Some("0xA".to_string()));
    assert_eq!(entries[0].owner_type, Some(OwnerType::Shared));
    assert_eq!(entries[1].owner_address, None);
    assert_eq!(entries[1].previous_owner, Some("0xA".to_string()));
}

#[test]
fn carry_previous_writes_the_earlier_state() {
    let mut shared = coin("0x1", 3, "0xA", 10);
    shared.owner_type = OwnerType::Shared;
    let index = build_index(
        &sui_filter(None),
        &PackageCache::new(),
        &vec![shared],
        Some(Provenance { checkpoint: 8, epoch: 2, timestamp_ms: 1000 }),
    ).unwrap();
    let mut entry =
        observe(stamp_of_test(), &coin("0x1", 4, "0xB", 10), ObjectStatus::TransferIn).unwrap();
    carry_previous(&mut entry, &index[0]);
    assert_eq!(entry.previous_owner, Some("0xA".to_string()));
    assert_eq!(entry.previous_version, Some(3));
    assert_eq!(entry.previous_checkpoint, Some(8));
    assert_eq!(entry.previous_coin_type, Some(SUI.to_string()));
    assert_eq!(entry.previous_type, Some(OwnerType::Shared));
    assert_eq!(entry.owner_address, Some("0xB".to_string()));
    assert_eq!(entry.version, 4);
    assert_eq!(entry.coin_balance, 10);
}

#[test]
fn accumulator_appends_and_drains_in_order() {
    let first = observe(stamp_of_test(), &coin("0x1", 1, "0xA", 1), ObjectStatus::Created).unwrap();
    let second =
        observe(stamp_of_test(), &coin("0x2", 1, "0xA", 1), ObjectStatus::Created).unwrap();
    let third = observe(stamp_of_test(), &coin("0x3", 1, "0xA", 1), ObjectStatus::Mutated).unwrap();
    let mut accumulator = Accumulator::new();
    assert_eq!(accumulator.drain(), vec![]);
    accumulator.append(vec![first.clone()]);
    accumulator.append(vec![]);
    accumulator.append(vec![second.clone(), third.clone()]);
    assert_eq!(accumulator.drain(), vec![first, second, third.clone()]);
    assert_eq!(accumulator.drain(), vec![]);
    accumulator.append(vec![third.clone()]);
    assert_eq!(accumulator.drain(), vec![third]);
}

fn coin_of(package: &str, id: &str, version: u128, owner: &str, balance: u128) -> ObjectSnapshot {
    let mut object = coin(id, version, owner, balance);
    object.package = package.to_string();
    object
}

#[test]
fn deleted_coin_of_another_package_gives_nothing() {
    let mut stage = OwnershipHandler::new(&Some("0xabc".to_string()), system_packages());
    stage.remember("0x2".to_string(), "0x2".to_string());
    let mut effects = no_effects();
    effects.deleted.push(reference("0xO", 6));
    let tx = transaction("T1", vec![coin("0xO", 5, "0xA", 10)], vec![], effects);
    let cp = checkpoint(9, false, vec![tx]);
    assert_eq!(stage.unresolved_packages(&cp), Vec::<String>::new());
    assert_eq!(stage.process_checkpoint(&cp), Ok(()));
    assert_eq!(stage.read_and_clear(), vec![]);
}

#[test]
fn objects_outside_the_filter_give_nothing() {
    let mut stage = OwnershipHandler::new(&Some("0xabc".to_string()), system_packages());
    stage.remember("0x2".to_string(), "0x2".to_string());
    let mut effects = no_effects();
    effects.deleted.push(reference("0x1", 6));
    effects.mutated.push(reference("0x2", 3));
    effects.created.push(reference("0x3", 1));
    let tx = transaction(
        "T1",
        vec![coin("0x1", 5, "0xA", 10), coin("0x2", 2, "0xA", 10), coin("0x4", 2, "0xA", 10)],
        vec![coin("0x2", 3, "0xA", 9), coin("0x3", 1, "0xB", 1), coin("0x4", 3, "0xB", 10)],
        effects,
    );
    assert_eq!(stage.process_checkpoint(&checkpoint(9, false, vec![tx])), Ok(()));
    assert_eq!(stage.read_and_clear(), vec![]);
}

#[test]
fn filter_keeps_the_prior_state_of_its_own_package() {
    let mut stage = OwnershipHandler::new(&Some("0xabc".to_string()), system_packages());
    stage.remember("0x2".to_string(), "0x2".to_string());
    stage.remember("0xabd".to_string(), "0xabc".to_string());
    let mut effects = no_effects();
    effects.deleted.push(reference("0x1", 6));
    effects.deleted.push(reference("0x5", 6));
    let tx = transaction(
        "T7",
        vec![
            coin_of("0xabd", "0x1", 5, "0xA", 10),
            coin("0x5", 5, "0xA", 10),
            coin_of("0xabd", "0x2", 2, "0xA", 4),
        ],
        vec![coin_of("0xabd", "0x2", 3, "0xB", 4)],
        effects,
    );
    assert_eq!(stage.process_checkpoint(&checkpoint(9, false, vec![tx])), Ok(()));
    let entries = stage.read_and_clear();
    let seen: Vec<(&str, ObjectStatus)> =
        entries.iter().map(|e| (e.object_id.as_str(), e.object_status)).collect();
    assert_eq!(
        seen,
        vec![
            ("0x2", ObjectStatus::TransferOut),
            ("0x2", ObjectStatus::TransferIn),
            ("0x1", ObjectStatus::Deleted),
        ]
    );
    assert_eq!(entries[2].previous_transaction, "T7");
}

#[test]
fn input_of_an_unknown_package_fails() {
    let mut stage = OwnershipHandler::new(&Some("0x2".to_string()), system_packages());
    let tx = transaction("T1", vec![coin("0xO", 5, "0xA", 10)], vec![], no_effects());
    let cp = checkpoint(9, false, vec![tx]);
    assert_eq!(stage.unresolved_packages(&cp), vec!["0x2".to_string()]);
    assert_eq!(stage.process_checkpoint(&cp), Err(OwnershipError::UnresolvedPackage));
    stage.remember("0x2".to_string(), "0x2".to_string());
    assert_eq!(stage.process_checkpoint(&cp), Ok(()));
    assert_eq!(stage.read_and_clear(), vec![]);
}

#[test]
fn index_fails_at_the_first_input_that_fails() {
    let filter = sui_filter(Some("0x2"));
    let mut cache = PackageCache::new();
    cache.insert("0x2".to_string(), "0x2".to_string());
    cache.insert("0x9".to_string(), "0x8".to_string());
    let too_big = u64::MAX as u128 + 1;
    let narrow_first = vec![coin("0x1", too_big, "0xA", 1), coin_of("0x7", "0x2", 1, "0xA", 1)];
    assert!(matches!(
        build_index(&filter, &cache, &narrow_first, Some(stamp_of_test())),
        Err(OwnershipError::Narrowing)
    ));
    let unknown_first = vec![coin_of("0x7", "0x2", 1, "0xA", 1), coin("0x1", too_big, "0xA", 1)];
    assert!(matches!(
        build_index(&filter, &cache, &unknown_first, Some(stamp_of_test())),
        Err(OwnershipError::UnresolvedPackage)
    ));
    let turned_away = vec![coin_of("0x9", "0x1", too_big, "0xA", too_big), coin("0x2", 1, "0xA", 1)];
    let index = build_index(&filter, &cache, &turned_away, Some(stamp_of_test())).unwrap();
    assert_eq!(index.len(), 1);
    assert_eq!(index[0].object_id, "0x2");
}

#[test]
fn unresolved_packages_come_in_the_order_met() {
    let filter = sui_filter(Some("0x2"));
    let mut cache = PackageCache::new();
    cache.insert("0x5".to_string(), "0x5".to_string());
    let first = transaction(
        "T1",
        vec![coin_of("0xc", "0x1", 1, "0xA", 1), coin_of("0x5", "0x2", 1, "0xA", 1)],
        vec![coin_of("0xa", "0x3", 1, "0xA", 1), coin_of("0xc", "0x1", 2, "0xA", 1)],
        no_effects(),
    );
    let second = transaction(
        "T2",
        vec![coin_of("0xb", "0x4", 1, "0xA", 1), coin_of("0xa", "0x3", 1, "0xA", 1)],
        vec![coin_of("0xd", "0x6", 1, "0xA", 1)],
        no_effects(),
    );
    assert_eq!(
        unresolved_packages(&filter, &cache, &vec![first, second]),
        vec!["0xc".to_string(), "0xa".to_string(), "0xb".to_string(), "0xd".to_string()]
    );
    assert_eq!(unresolved_packages(&filter, &cache, &vec![]), Vec::<String>::new());
}

#[test]
fn list_awaited_extends_what_is_listed() {
    let filter = sui_filter(Some("0x2"));
    let mut cache = PackageCache::new();
    cache.insert("0x5".to_string(), "0x5".to_string());
    let mut untracked = coin_of("0xe", "0x9", 1, "0xA", 1);
    untracked.coin_type = None;
    let objects = vec![
        coin_of("0xb", "0x1", 1, "0xA", 1),
        coin_of("0xz", "0x2", 1, "0xA", 1),
        coin_of("0x5", "0x3", 1, "0xA", 1),
        untracked,
        coin_of("0xa", "0x4", 1, "0xA", 1),
        coin_of("0xb", "0x5", 1, "0xA", 1),
    ];
    let mut packages = vec!["0xz".to_string()];
    list_awaited(&filter, &cache, &objects, &mut packages);
    assert_eq!(packages, vec!["0xz".to_string(), "0xb".to_string(), "0xa".to_string()]);
    list_awaited(&sui_filter(None), &cache, &objects, &mut packages);
    assert_eq!(packages.len(), 3);
}

#[test]
fn counters_are_narrowed_only_for_matching_objects() {
    let mut stage = OwnershipHandler::new(&Some("0xabc".to_string()), system_packages());
    stage.remember("0x2".to_string(), "0x2".to_string());
    stage.remember("0xabd".to_string(), "0xabc".to_string());
    let mut cp = checkpoint(u128::MAX, false, vec![]);
    cp.checkpoint_summary.epoch = u64::MAX as u128 + 1;
    cp.checkpoint_summary.timestamp_ms = u128::MAX;
    assert_eq!(stage.process_checkpoint(&cp), Ok(()));

    cp.transactions.push(transaction("T1", vec![], vec![], no_effects()));
    let mut not_a_coin = coin("0x7", 1, "0xA", 1);
    not_a_coin.coin_type = None;
    let mut effects = no_effects();
    effects.deleted.push(reference("0x1", 6));
    effects.deleted.push(reference("0x9", 6));
    cp.transactions.push(transaction(
        "T2",
        vec![coin("0x1", 5, "0xA", 10), coin("0x2", 5, "0xA", 10), not_a_coin.clone()],
        vec![coin("0x2", 6, "0xB", 10), coin("0x3", 1, "0xB", 10), not_a_coin],
        effects,
    ));
    assert_eq!(stage.process_checkpoint(&cp), Ok(()));
    assert_eq!(stage.read_and_clear(), vec![]);

    let mut created = no_effects();
    created.created.push(reference("0x4", 1));
    cp.transactions.push(transaction(
        "T3",
        vec![],
        vec![coin_of("0xabd", "0x4", 1, "0xA", 1)],
        created,
    ));
    assert_eq!(stage.process_checkpoint(&cp), Err(OwnershipError::Narrowing));
    assert_eq!(stage.read_and_clear(), vec![]);
}

#[test]
fn steps_without_a_stamp_fail_only_where_a_record_is_due() {
    let filter = sui_filter(None);
    let cache = PackageCache::new();
    let mut not_a_coin = coin("0x7", 1, "0xA", 1);
    not_a_coin.coin_type = None;
    assert!(matches!(
        build_index(&filter, &cache, &vec![not_a_coin.clone()], None),
        Ok(index) if index.is_empty()
    ));
    assert!(matches!(
        build_index(&filter, &cache, &vec![not_a_coin.clone(), coin("0x1", 1, "0xA", 1)], None),
        Err(OwnershipError::Narrowing)
    ));
    let index = build_index(&filter, &cache, &vec![coin("0x1", 1, "0xA", 1)], Some(stamp_of_test()))
        .unwrap();
    let mut effects = no_effects();
    effects.created.push(reference("0x2", 1));
    let tracker = ObjectStatusTracker::new(&effects);
    let mut buffer = Vec::new();
    assert_eq!(
        append_output(&mut buffer, &filter, &cache, None, &index, &tracker, &not_a_coin),
        Ok(())
    );
    assert_eq!(
        append_output(
            &mut buffer,
            &filter,
            &cache,
            None,
            &index,
            &tracker,
            &coin("0x2", 1, "0xA", 1)
        ),
        Err(OwnershipError::Narrowing)
    );
    assert_eq!(
        append_deleted(&mut buffer, None, &index, &"T1".to_string(), &reference("0x9", 2)),
        Ok(())
    );
    assert_eq!(
        append_deleted(&mut buffer, None, &index, &"T1".to_string(), &reference("0x1", 2)),
        Err(OwnershipError::Narrowing)
    );
    assert_eq!(buffer, vec![]);
}

#[test]
fn record_versions_of_one_object_do_not_decrease() {
    let mut stage = handler();
    let mut first_effects = no_effects();
    first_effects.created.push(reference("0x1", 1));
    first_effects.created.push(reference("0x2", 7));
    let first = transaction(
        "T1",
        vec![],
        vec![coin("0x1", 1, "0xA", 5), coin("0x2", 7, "0xA", 5)],
        first_effects,
    );
    let mut second_effects = no_effects();
    second_effects.mutated.push(reference("0x2", 8));
    second_effects.deleted.push(reference("0x1", 3));
    let second = transaction(
        "T2",
        vec![coin("0x1", 1, "0xA", 5), coin("0x2", 7, "0xA", 5)],
        vec![coin("0x2", 8, "0xA", 4)],
        second_effects,
    );
    let third = transaction(
        "T3",
        vec![coin("0x2", 8, "0xA", 4)],
        vec![coin("0x2", 9, "0xB", 4)],
        no_effects(),
    );
    assert_eq!(stage.process_checkpoint(&checkpoint(9, false, vec![first, second, third])), Ok(()));
    let entries = stage.read_and_clear();
    let of_first: Vec<u64> =
        entries.iter().filter(|e| e.object_id == "0x1").map(|e| e.version).collect();
    let of_second: Vec<u64> =
        entries.iter().filter(|e| e.object_id == "0x2").map(|e| e.version).collect();
    assert_eq!(of_first, vec![1, 3]);
    assert_eq!(of_second, vec![7, 8, 9, 9]);
}
