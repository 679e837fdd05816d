//! The status classifier: what a transaction's effects say happened to an
//! object, whoever owns it.

use vstd::prelude::*;
use crate::types::{ObjectRef, ObjectStatus, TransactionEffects};

verus! {

/// The characters of each string of a sequence.
pub open spec fn texts(ids: Seq<String>) -> Seq<Seq<char>> {
    ids.map_values(|s: String| s@)
}

/// The object ids of a sequence of references, in order.
pub open spec fn ref_ids(refs: Seq<ObjectRef>) -> Seq<Seq<char>> {
    refs.map_values(|r: ObjectRef| r.object_id@)
}

/// The ids that a transaction's effects name, one sequence for each effect set.
pub ghost struct EffectIds {
    pub created: Seq<Seq<char>>,
    pub mutated: Seq<Seq<char>>,
    pub deleted: Seq<Seq<char>>,
    pub wrapped: Seq<Seq<char>>,
    pub unwrapped: Seq<Seq<char>>,
}

pub open spec fn effect_ids(effects: TransactionEffects) -> EffectIds {
    EffectIds {
        created: ref_ids(effects.created@),
        mutated: ref_ids(effects.mutated@),
        deleted: ref_ids(effects.deleted@),
        wrapped: ref_ids(effects.wrapped@),
        unwrapped: ref_ids(effects.unwrapped@),
    }
}

/// The status of `id` among `sets`: that of the first set that names it, the
/// sets taken in the order created, mutated, deleted, wrapped, unwrapped;
/// `None` where no set names it.
pub open spec fn status_among(sets: EffectIds, id: Seq<char>) -> Option<ObjectStatus> {
    if sets.created.contains(id) {
        Some(ObjectStatus::Created)
    } else if sets.mutated.contains(id) {
        Some(ObjectStatus::Mutated)
    } else if sets.deleted.contains(id) {
        Some(ObjectStatus::Deleted)
    } else if sets.wrapped.contains(id) {
        Some(ObjectStatus::Wrapped)
    } else if sets.unwrapped.contains(id) {
        Some(ObjectStatus::Unwrapped)
    } else {
        None
    }
}

/// The status that a transaction's effects give to `id`.
pub open spec fn classify(effects: TransactionEffects, id: Seq<char>) -> Option<ObjectStatus> {
    status_among(effect_ids(effects), id)
}

/// Whether `id` is one of `ids`.
pub fn contains_id(ids: &Vec<String>, id: &String) -> (found: bool)
    ensures
        found == texts(ids@).contains(id@),
{
    let mut i: usize = 0;
    while i < ids.len()
        invariant
            i <= ids.len(),
            forall|j: int| 0 <= j < i ==> texts(ids@)[j] != id@,
        decreases ids.len() - i,
    {
        if ids[i] == *id {
            assert(texts(ids@)[i as int] == id@);
            return true;
        }
        i += 1;
    }
    false
}

/// The ids of `refs`, copied out in order.
pub fn collect_ids(refs: &Vec<ObjectRef>) -> (ids: Vec<String>)
    ensures
        texts(ids@) == ref_ids(refs@),
{
    let mut ids: Vec<String> = Vec::new();
    let mut i: usize = 0;
    while i < refs.len()
        invariant
            i <= refs.len(),
            ids.len() == i,
            forall|j: int| 0 <= j < i ==> ids[j]@ == #[trigger] refs[j].object_id@,
        decreases refs.len() - i,
    {
        ids.push(refs[i].object_id.clone());
        i += 1;
    }
    assert(texts(ids@) =~= ref_ids(refs@));
    ids
}

/// Looks objects up in the effect sets of one transaction. It holds no other
/// state, and is built anew for each transaction.
pub struct ObjectStatusTracker {
    created: Vec<String>,
    mutated: Vec<String>,
    deleted: Vec<String>,
    wrapped: Vec<String>,
    unwrapped: Vec<String>,
}

impl View for ObjectStatusTracker {
    type V = EffectIds;

    closed spec fn view(&self) -> EffectIds {
        EffectIds {
            created: texts(self.created@),
            mutated: texts(self.mutated@),
            deleted: texts(self.deleted@),
            wrapped: texts(self.wrapped@),
            unwrapped: texts(self.unwrapped@),
        }
    }
}

impl ObjectStatusTracker {
    /// A tracker for the effects of one transaction.
    pub fn new(effects: &TransactionEffects) -> (tracker: Self)
        ensures
            tracker@ == effect_ids(*effects),
    {
        ObjectStatusTracker {
            created: collect_ids(&effects.created),
            mutated: collect_ids(&effects.mutated),
            deleted: collect_ids(&effects.deleted),
            wrapped: collect_ids(&effects.wrapped),
            unwrapped: collect_ids(&effects.unwrapped),
        }
    }

    /// The status of an object, or `None` where the effects do not name it.
    pub fn get_object_status(&self, object_id: &String) -> (status: Option<ObjectStatus>)
        ensures
            status == status_among(self@, object_id@),
    {
        if contains_id(&self.created, object_id) {
            Some(ObjectStatus::Created)
        } else if contains_id(&self.mutated, object_id) {
            Some(ObjectStatus::Mutated)
        } else if contains_id(&self.deleted, object_id) {
            Some(ObjectStatus::Deleted)
        } else if contains_id(&self.wrapped, object_id) {
            Some(ObjectStatus::Wrapped)
        } else if contains_id(&self.unwrapped, object_id) {
            Some(ObjectStatus::Unwrapped)
        } else {
            None
        }
    }
}

} // verus!
