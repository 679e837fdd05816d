//! The data that flows through the stage: what a checkpoint delivers, and the
//! ownership record that is produced from it.

use vstd::prelude::*;

verus! {

/// The coin type whose objects are tracked.
pub const TRACKED_COIN_TYPE: &'static str = "0x2::sui::SUI";

/// How an object is owned.
#[derive(Clone, Copy, Debug, PartialEq, Eq, Structural)]
pub enum OwnerType {
    AddressOwner,
    Object,
    Shared,
    Immutable,
}

/// What a record says happened to its object.
///
/// The first five are dispositions read from a transaction's effects; the two
/// transfer labels are given to the halves of an owner change.
#[derive(Clone, Copy, Debug, PartialEq, Eq, Structural)]
pub enum ObjectStatus {
    Created,
    Mutated,
    Deleted,
    Wrapped,
    Unwrapped,
    TransferIn,
    TransferOut,
}

/// Why a checkpoint could not be processed.
#[derive(Clone, Copy, Debug, PartialEq, Eq, Structural)]
pub enum OwnershipError {
    /// An on-chain counter does not fit the record's 64-bit field.
    Narrowing,
    /// An output object is named in none of the transaction's effect sets.
    StatusNotFound,
    /// The package of an output object's type is not in the package cache.
    UnresolvedPackage,
}

/// The kind of file the records are exported to.
#[derive(Clone, Copy, Debug, PartialEq, Eq, Structural)]
pub enum FileType {
    Ownership,
}

/// Which objects produce records: coins of `coin_type`, and, where `package`
/// is set, only those whose type was first declared by that package.
#[derive(Clone, Debug, PartialEq, Eq)]
pub struct TypeFilter {
    pub coin_type: String,
    pub package: Option<String>,
}

/// The mathematical content of a [`TypeFilter`].
pub ghost struct FilterView {
    pub coin_type: Seq<char>,
    pub package: Option<Seq<char>>,
}

impl View for TypeFilter {
    type V = FilterView;

    open spec fn view(&self) -> FilterView {
        FilterView { coin_type: self.coin_type@, package: text(self.package) }
    }
}

/// An object as a transaction read it or wrote it.
#[derive(Clone, Debug, PartialEq, Eq)]
pub struct ObjectSnapshot {
    pub object_id: String,
    pub version: u128,
    pub owner_type: OwnerType,
    pub owner_address: Option<String>,
    /// Digest of the transaction that last wrote the object.
    pub previous_transaction: String,
    /// The coin type, where the object is a coin.
    pub coin_type: Option<String>,
    /// The coin's value; read only where `coin_type` is present.
    pub coin_balance: u128,
    /// Address of the package that the object's type names.
    pub package: String,
}

/// A reference to an object at a version, as effects list them.
#[derive(Clone, Debug, PartialEq, Eq)]
pub struct ObjectRef {
    pub object_id: String,
    pub version: u128,
}

/// The objects that a transaction created, mutated, deleted, wrapped or
/// unwrapped.
#[derive(Clone, Debug, PartialEq, Eq)]
pub struct TransactionEffects {
    pub created: Vec<ObjectRef>,
    pub mutated: Vec<ObjectRef>,
    pub deleted: Vec<ObjectRef>,
    pub wrapped: Vec<ObjectRef>,
    pub unwrapped: Vec<ObjectRef>,
}

/// One transaction of a checkpoint, with the objects it consumed and produced.
#[derive(Clone, Debug, PartialEq, Eq)]
pub struct CheckpointTransaction {
    pub digest: String,
    pub input_objects: Vec<ObjectSnapshot>,
    pub output_objects: Vec<ObjectSnapshot>,
    pub effects: TransactionEffects,
}

#[derive(Clone, Copy, Debug, PartialEq, Eq, Structural)]
pub struct CheckpointSummary {
    pub epoch: u128,
    pub sequence_number: u128,
    pub timestamp_ms: u128,
    /// Set on the last checkpoint of an epoch.
    pub end_of_epoch: bool,
}

/// A checkpoint: its summary and its transactions in order.
#[derive(Clone, Debug, PartialEq, Eq)]
pub struct CheckpointData {
    pub checkpoint_summary: CheckpointSummary,
    pub transactions: Vec<CheckpointTransaction>,
}

/// One ownership transition record.
#[derive(Clone, Debug, PartialEq, Eq)]
pub struct OwnershipEntry {
    pub object_id: String,
    pub version: u64,
    pub checkpoint: u64,
    pub epoch: u64,
    pub timestamp_ms: u64,
    pub owner_type: Option<OwnerType>,
    pub owner_address: Option<String>,
    pub object_status: ObjectStatus,
    pub previous_transaction: String,
    pub coin_type: Option<String>,
    pub coin_balance: u64,
    pub previous_owner: Option<String>,
    pub previous_version: Option<u64>,
    pub previous_checkpoint: Option<u64>,
    pub previous_coin_type: Option<String>,
    pub previous_type: Option<OwnerType>,
}

/// The mathematical content of an [`OwnershipEntry`].
pub ghost struct EntryView {
    pub object_id: Seq<char>,
    pub version: u64,
    pub checkpoint: u64,
    pub epoch: u64,
    pub timestamp_ms: u64,
    pub owner_type: Option<OwnerType>,
    pub owner_address: Option<Seq<char>>,
    pub object_status: ObjectStatus,
    pub previous_transaction: Seq<char>,
    pub coin_type: Option<Seq<char>>,
    pub coin_balance: u64,
    pub previous_owner: Option<Seq<char>>,
    pub previous_version: Option<u64>,
    pub previous_checkpoint: Option<u64>,
    pub previous_coin_type: Option<Seq<char>>,
    pub previous_type: Option<OwnerType>,
}

/// The characters of an optional string.
pub open spec fn text(s: Option<String>) -> Option<Seq<char>> {
    match s {
        Some(t) => Some(t@),
        None => None,
    }
}

impl View for OwnershipEntry {
    type V = EntryView;

    open spec fn view(&self) -> EntryView {
        EntryView {
            object_id: self.object_id@,
            version: self.version,
            checkpoint: self.checkpoint,
            epoch: self.epoch,
            timestamp_ms: self.timestamp_ms,
            owner_type: self.owner_type,
            owner_address: text(self.owner_address),
            object_status: self.object_status,
            previous_transaction: self.previous_transaction@,
            coin_type: text(self.coin_type),
            coin_balance: self.coin_balance,
            previous_owner: text(self.previous_owner),
            previous_version: self.previous_version,
            previous_checkpoint: self.previous_checkpoint,
            previous_coin_type: text(self.previous_coin_type),
            previous_type: self.previous_type,
        }
    }
}

/// The contents of a buffer of records.
pub open spec fn views(entries: Seq<OwnershipEntry>) -> Seq<EntryView> {
    entries.map_values(|e: OwnershipEntry| e@)
}

impl EntryView {
    /// None of the fields that describe an earlier state is set.
    pub open spec fn no_previous(self) -> bool {
        &&& self.previous_owner is None
        &&& self.previous_version is None
        &&& self.previous_checkpoint is None
        &&& self.previous_coin_type is None
        &&& self.previous_type is None
    }

    /// What a record's status says of its other fields: a transfer out holds
    /// no balance and names the earlier owner; a transfer in names another
    /// owner than the earlier one; both carry the earlier state; every other
    /// record carries none.
    pub open spec fn consistent(self) -> bool {
        &&& self.object_status == ObjectStatus::TransferOut ==> self.coin_balance == 0
            && self.previous_owner == self.owner_address
        &&& self.object_status == ObjectStatus::TransferIn ==> self.previous_owner
            != self.owner_address
        &&& self.object_status == ObjectStatus::TransferOut || self.object_status
            == ObjectStatus::TransferIn ==> self.previous_version is Some
            && self.previous_checkpoint is Some && self.previous_type is Some
        &&& self.object_status != ObjectStatus::TransferOut && self.object_status
            != ObjectStatus::TransferIn ==> self.no_previous()
    }
}

impl OwnerType {
    /// The name under which the owner type is exported.
    pub open spec fn spec_label(self) -> Seq<char> {
        match self {
            OwnerType::AddressOwner => "AddressOwner"@,
            OwnerType::Object => "Object"@,
            OwnerType::Shared => "Shared"@,
            OwnerType::Immutable => "Immutable"@,
        }
    }

    /// The name under which the owner type is exported.
    pub fn label(&self) -> (name: String)
        ensures
            name@ == self.spec_label(),
    {
        match self {
            OwnerType::AddressOwner => "AddressOwner".to_owned(),
            OwnerType::Object => "Object".to_owned(),
            OwnerType::Shared => "Shared".to_owned(),
            OwnerType::Immutable => "Immutable".to_owned(),
        }
    }
}

impl ObjectStatus {
    /// The name under which the status is exported.
    pub open spec fn spec_label(self) -> Seq<char> {
        match self {
            ObjectStatus::Created => "Created"@,
            ObjectStatus::Mutated => "Mutated"@,
            ObjectStatus::Deleted => "Deleted"@,
            ObjectStatus::Wrapped => "Wrapped"@,
            ObjectStatus::Unwrapped => "Unwrapped"@,
            ObjectStatus::TransferIn => "Transfer In"@,
            ObjectStatus::TransferOut => "Transfer Out"@,
        }
    }

    /// The name under which the status is exported.
    pub fn label(&self) -> (name: String)
        ensures
            name@ == self.spec_label(),
    {
        match self {
            ObjectStatus::Created => "Created".to_owned(),
            ObjectStatus::Mutated => "Mutated".to_owned(),
            ObjectStatus::Deleted => "Deleted".to_owned(),
            ObjectStatus::Wrapped => "Wrapped".to_owned(),
            ObjectStatus::Unwrapped => "Unwrapped".to_owned(),
            ObjectStatus::TransferIn => "Transfer In".to_owned(),
            ObjectStatus::TransferOut => "Transfer Out".to_owned(),
        }
    }
}

impl OwnershipError {
    /// What went wrong, in words.
    pub open spec fn spec_message(self) -> Seq<char> {
        match self {
            OwnershipError::Narrowing => "a counter does not fit a 64-bit field"@,
            OwnershipError::StatusNotFound => "an output object is in no effect set"@,
            OwnershipError::UnresolvedPackage => "a package is not in the cache"@,
        }
    }

    /// What went wrong, in words.
    pub fn message(&self) -> (words: String)
        ensures
            words@ == self.spec_message(),
    {
        match self {
            OwnershipError::Narrowing => "a counter does not fit a 64-bit field".to_owned(),
            OwnershipError::StatusNotFound => "an output object is in no effect set".to_owned(),
            OwnershipError::UnresolvedPackage => "a package is not in the cache".to_owned(),
        }
    }
}

/// Whether an on-chain counter fits a record's field.
pub open spec fn fits(value: u128) -> bool {
    value <= u64::MAX
}

/// Narrows an on-chain counter to a record's field, or fails: nothing is
/// truncated.
pub fn narrow(value: u128) -> (r: Result<u64, OwnershipError>)
    ensures
        fits(value) ==> r == Ok::<u64, OwnershipError>(value as u64),
        !fits(value) ==> r == Err::<u64, OwnershipError>(OwnershipError::Narrowing),
{
    if value <= 0xffff_ffff_ffff_ffffu128 {
        Ok(value as u64)
    } else {
        Err(OwnershipError::Narrowing)
    }
}

/// Copies an optional string.
pub fn copy_text(s: &Option<String>) -> (r: Option<String>)
    ensures
        text(r) == text(*s),
{
    match s {
        Some(t) => Some(t.clone()),
        None => None,
    }
}

/// Whether two optional strings hold the same characters.
pub fn same_text(a: &Option<String>, b: &Option<String>) -> (r: bool)
    ensures
        r == (text(*a) == text(*b)),
{
    match a {
        Some(x) => match b {
            Some(y) => *x == *y,
            None => false,
        },
        None => b.is_none(),
    }
}

} // verus!
