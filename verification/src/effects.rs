//! Effects builder: reconciles a transaction's pre-state and post-state
//! object sets into a classified, cascading effects record.
//!
//! The builder is a pure reducer over the pre-transaction object table
//! restricted to touched ids and the raw write set reported by the opaque
//! execution step.  Classification is decided entirely by each object's
//! prior state: an id with no prior top-level version that is now live was
//! created; one with a prior version still live was mutated; one known
//! only as embedded state that is now live was unwrapped; a live id that
//! was absorbed was wrapped; a removed id is deleted, or
//! unwrapped-then-deleted when it had no prior top-level version.

use vstd::prelude::*;
use crate::errors::ExecutionStatus;
use crate::model::{Digest, ObjectRef, Owner};
use crate::version::{lamport_successor, lamport_increment, seq_max, lemma_seq_max_ge};

verus! {

/// What the store knew of a touched object when the transaction began.
#[derive(Clone, Copy, Debug, PartialEq, Eq, Structural)]
pub enum PriorState {
    /// Independently addressable at this top-level version.
    Live { version: u64 },
    /// Known only as state embedded inside another object; the id has no
    /// top-level version of its own.
    Embedded,
}

/// One touched object with its state at the start of the transaction.
#[derive(Clone, Copy, Debug, PartialEq, Eq, Structural)]
pub struct PreObject {
    pub id: u64,
    pub prior: PriorState,
}

/// One object left live by execution: its id, resulting owner, and
/// resulting content fingerprint.
#[derive(Clone, Copy, Debug, PartialEq, Eq, Structural)]
pub struct WriteOp {
    pub id: u64,
    pub owner: Owner,
    pub content: u64,
}

/// The raw mutations reported by the opaque execution step: objects live
/// afterwards, ids removed entirely, and ids absorbed into a parent.
#[derive(Clone, Debug)]
pub struct ExecutionOutcome {
    pub writes: Vec<WriteOp>,
    pub deletes: Vec<u64>,
    pub wraps: Vec<u64>,
}

impl ExecutionOutcome {
    /// The three id lists are duplicate-free and pairwise disjoint: an
    /// object cannot be both live and removed, nor removed twice.
    pub open spec fn wf(self) -> bool {
        &&& forall|j: int, k: int| 0 <= j < k < self.writes@.len()
            ==> self.writes@[j].id != self.writes@[k].id
        &&& forall|j: int, k: int| 0 <= j < k < self.deletes@.len()
            ==> self.deletes@[j] != self.deletes@[k]
        &&& forall|j: int, k: int| 0 <= j < k < self.wraps@.len()
            ==> self.wraps@[j] != self.wraps@[k]
        &&& forall|j: int, k: int| 0 <= j < self.writes@.len() && 0 <= k < self.deletes@.len()
            ==> self.writes@[j].id != self.deletes@[k]
        &&& forall|j: int, k: int| 0 <= j < self.writes@.len() && 0 <= k < self.wraps@.len()
            ==> self.writes@[j].id != self.wraps@[k]
        &&& forall|j: int, k: int| 0 <= j < self.deletes@.len() && 0 <= k < self.wraps@.len()
            ==> self.deletes@[j] != self.wraps@[k]
    }
}

/// The prior state recorded for `id`, scanning from the most recently
/// added entry.
pub open spec fn pre_lookup(pre: Seq<PreObject>, id: u64) -> Option<PriorState>
    decreases pre.len(),
{
    if pre.len() == 0 {
        None
    } else if pre.last().id == id {
        Some(pre.last().prior)
    } else {
        pre_lookup(pre.drop_last(), id)
    }
}

/// True when `id` had a top-level version at the start of the transaction.
pub open spec fn prior_live(pre: Seq<PreObject>, id: u64) -> bool {
    pre_lookup(pre, id) matches Some(PriorState::Live { version: _ })
}

/// True when `id` was known only as embedded state.
pub open spec fn prior_embedded(pre: Seq<PreObject>, id: u64) -> bool {
    pre_lookup(pre, id) == Some(PriorState::Embedded)
}

/// The versions of every causal input: each touched object that had a
/// top-level version at the start of the transaction, in table order.
pub open spec fn prior_versions(pre: Seq<PreObject>) -> Seq<u64>
    decreases pre.len(),
{
    if pre.len() == 0 {
        Seq::empty()
    } else {
        prior_versions(pre.drop_last()) + match pre.last().prior {
            PriorState::Live { version } => seq![version],
            PriorState::Embedded => Seq::empty(),
        }
    }
}

/// The (id, start-of-transaction version) pairs of every touched object
/// that had a top-level version, in table order.
pub open spec fn modified_at_of(pre: Seq<PreObject>) -> Seq<(u64, u64)>
    decreases pre.len(),
{
    if pre.len() == 0 {
        Seq::empty()
    } else {
        modified_at_of(pre.drop_last()) + match pre.last().prior {
            PriorState::Live { version } => seq![(pre.last().id, version)],
            PriorState::Embedded => Seq::empty(),
        }
    }
}

/// Writes of ids with no prior record: objects created by this
/// transaction, stamped with the transaction's version.
pub open spec fn created_of(pre: Seq<PreObject>, writes: Seq<WriteOp>, v: u64)
    -> Seq<(ObjectRef, Owner)>
    decreases writes.len(),
{
    if writes.len() == 0 {
        Seq::empty()
    } else {
        let w = writes.last();
        created_of(pre, writes.drop_last(), v) + if pre_lookup(pre, w.id) is None {
            seq![(ObjectRef { id: w.id, version: v, digest: Digest::Live(w.content) }, w.owner)]
        } else {
            Seq::empty()
        }
    }
}

/// Writes of ids with a prior top-level version: objects mutated in place,
/// ownership preserved or explicitly changed by the write.
pub open spec fn mutated_of(pre: Seq<PreObject>, writes: Seq<WriteOp>, v: u64)
    -> Seq<(ObjectRef, Owner)>
    decreases writes.len(),
{
    if writes.len() == 0 {
        Seq::empty()
    } else {
        let w = writes.last();
        mutated_of(pre, writes.drop_last(), v) + if prior_live(pre, w.id) {
            seq![(ObjectRef { id: w.id, version: v, digest: Digest::Live(w.content) }, w.owner)]
        } else {
            Seq::empty()
        }
    }
}

/// Writes of ids previously known only as embedded state: objects
/// surfacing with a live digest and an explicit owner.
pub open spec fn unwrapped_of(pre: Seq<PreObject>, writes: Seq<WriteOp>, v: u64)
    -> Seq<(ObjectRef, Owner)>
    decreases writes.len(),
{
    if writes.len() == 0 {
        Seq::empty()
    } else {
        let w = writes.last();
        unwrapped_of(pre, writes.drop_last(), v) + if prior_embedded(pre, w.id) {
            seq![(ObjectRef { id: w.id, version: v, digest: Digest::Live(w.content) }, w.owner)]
        } else {
            Seq::empty()
        }
    }
}

/// Absorbed ids with a prior live digest: the wrapped set, carrying the
/// wrapped sentinel at the transition version.  An id absorbed in the
/// same transaction that made it -- never independently live before --
/// surfaces in no set.
pub open spec fn wrapped_of(pre: Seq<PreObject>, wraps: Seq<u64>, v: u64) -> Seq<ObjectRef>
    decreases wraps.len(),
{
    if wraps.len() == 0 {
        Seq::empty()
    } else {
        let id = wraps.last();
        wrapped_of(pre, wraps.drop_last(), v) + if prior_live(pre, id) {
            seq![ObjectRef { id: id, version: v, digest: Digest::Wrapped }]
        } else {
            Seq::empty()
        }
    }
}

/// Removed ids that had a prior top-level version -- or that briefly
/// existed as first-class objects created earlier in this same
/// transaction -- classified as deleted.
pub open spec fn deleted_of(pre: Seq<PreObject>, deletes: Seq<u64>, v: u64) -> Seq<ObjectRef>
    decreases deletes.len(),
{
    if deletes.len() == 0 {
        Seq::empty()
    } else {
        let id = deletes.last();
        deleted_of(pre, deletes.drop_last(), v) + if !prior_embedded(pre, id) {
            seq![ObjectRef { id: id, version: v, digest: Digest::Deleted }]
        } else {
            Seq::empty()
        }
    }
}

/// Removed ids that were embedded inside a now-deleted ancestor and had
/// no top-level version of their own: unwrapped-then-deleted, kept
/// disjoint from the deleted set.
pub open spec fn unwrapped_then_deleted_of(pre: Seq<PreObject>, deletes: Seq<u64>, v: u64)
    -> Seq<ObjectRef>
    decreases deletes.len(),
{
    if deletes.len() == 0 {
        Seq::empty()
    } else {
        let id = deletes.last();
        unwrapped_then_deleted_of(pre, deletes.drop_last(), v) + if prior_embedded(pre, id) {
            seq![ObjectRef { id: id, version: v, digest: Digest::Deleted }]
        } else {
            Seq::empty()
        }
    }
}

/// The first write for `id`, in execution order.
pub open spec fn find_write(writes: Seq<WriteOp>, id: u64) -> Option<WriteOp>
    decreases writes.len(),
{
    if writes.len() == 0 {
        None
    } else if writes.first().id == id {
        Some(writes.first())
    } else {
        find_write(writes.drop_first(), id)
    }
}

/// Per-transaction output: disjoint classification sets of object refs,
/// the pre-image versions of every touched object, and the gas object's
/// resulting ref.
#[derive(Debug)]
pub struct EffectsRecord {
    pub status: ExecutionStatus,
    pub lamport_version: u64,
    pub created: Vec<(ObjectRef, Owner)>,
    pub mutated: Vec<(ObjectRef, Owner)>,
    pub unwrapped: Vec<(ObjectRef, Owner)>,
    pub wrapped: Vec<ObjectRef>,
    pub deleted: Vec<ObjectRef>,
    pub unwrapped_then_deleted: Vec<ObjectRef>,
    pub modified_at_versions: Vec<(u64, u64)>,
    pub gas_object: (ObjectRef, Owner),
}

/// Computes the effects record of one transaction from the pre-state of
/// the touched objects and the raw mutations reported by execution.
///
/// Every written, wrapped, and removed object is stamped with the same
/// new version, the logical-clock successor of all causal input versions;
/// wrapping and unwrapping are version-bumping events exactly like
/// mutation.
pub fn build_effects(
    pre: &Vec<PreObject>,
    outcome: &ExecutionOutcome,
    gas_id: u64,
    status: ExecutionStatus,
) -> (r: EffectsRecord)
    requires
        seq_max(prior_versions(pre@)) < u64::MAX,
        find_write(outcome.writes@, gas_id) is Some,
    ensures
        r.status == status,
        r.lamport_version as nat == lamport_successor(prior_versions(pre@)),
        r.created@ == created_of(pre@, outcome.writes@, r.lamport_version),
        r.mutated@ == mutated_of(pre@, outcome.writes@, r.lamport_version),
        r.unwrapped@ == unwrapped_of(pre@, outcome.writes@, r.lamport_version),
        r.wrapped@ == wrapped_of(pre@, outcome.wraps@, r.lamport_version),
        r.deleted@ == deleted_of(pre@, outcome.deletes@, r.lamport_version),
        r.unwrapped_then_deleted@
            == unwrapped_then_deleted_of(pre@, outcome.deletes@, r.lamport_version),
        r.modified_at_versions@ == modified_at_of(pre@),
        find_write(outcome.writes@, gas_id) matches Some(w) ==> r.gas_object == (
            ObjectRef { id: gas_id, version: r.lamport_version, digest: Digest::Live(w.content) },
            w.owner,
        ),
        forall|i: int| 0 <= i < r.created@.len()
            ==> (#[trigger] r.created@[i]).0.version == r.lamport_version,
        forall|i: int| 0 <= i < r.mutated@.len()
            ==> (#[trigger] r.mutated@[i]).0.version == r.lamport_version,
        forall|i: int| 0 <= i < r.unwrapped@.len()
            ==> (#[trigger] r.unwrapped@[i]).0.version == r.lamport_version,
        forall|i: int| 0 <= i < r.wrapped@.len()
            ==> (#[trigger] r.wrapped@[i]).version == r.lamport_version,
        forall|i: int| 0 <= i < r.deleted@.len()
            ==> (#[trigger] r.deleted@[i]).version == r.lamport_version,
        forall|i: int| 0 <= i < r.unwrapped_then_deleted@.len()
            ==> (#[trigger] r.unwrapped_then_deleted@[i]).version == r.lamport_version,
        forall|i: int| 0 <= i < r.modified_at_versions@.len()
            ==> (#[trigger] r.modified_at_versions@[i]).1 < r.lamport_version,
{
    let versions = collect_prior_versions(pre);
    let v = lamport_increment(&versions);

    let mut created: Vec<(ObjectRef, Owner)> = Vec::new();
    let mut mutated: Vec<(ObjectRef, Owner)> = Vec::new();
    let mut unwrapped: Vec<(ObjectRef, Owner)> = Vec::new();
    let mut i: usize = 0;
    while i < outcome.writes.len()
        invariant
            i <= outcome.writes@.len(),
            created@ == created_of(pre@, outcome.writes@.take(i as int), v),
            mutated@ == mutated_of(pre@, outcome.writes@.take(i as int), v),
            unwrapped@ == unwrapped_of(pre@, outcome.writes@.take(i as int), v),
        decreases outcome.writes@.len() - i,
    {
        proof {
            assert(outcome.writes@.take(i + 1).drop_last() =~= outcome.writes@.take(i as int));
            assert(outcome.writes@.take(i + 1).last() == outcome.writes@[i as int]);
        }
        let w = outcome.writes[i];
        let entry = (
            ObjectRef { id: w.id, version: v, digest: Digest::Live(w.content) },
            w.owner,
        );
        match lookup_prior(pre, w.id) {
            None => created.push(entry),
            Some(PriorState::Live { version: _ }) => mutated.push(entry),
            Some(PriorState::Embedded) => unwrapped.push(entry),
        }
        i = i + 1;
    }

    let mut wrapped: Vec<ObjectRef> = Vec::new();
    let mut i: usize = 0;
    while i < outcome.wraps.len()
        invariant
            i <= outcome.wraps@.len(),
            wrapped@ == wrapped_of(pre@, outcome.wraps@.take(i as int), v),
        decreases outcome.wraps@.len() - i,
    {
        proof {
            assert(outcome.wraps@.take(i + 1).drop_last() =~= outcome.wraps@.take(i as int));
            assert(outcome.wraps@.take(i + 1).last() == outcome.wraps@[i as int]);
        }
        let id = outcome.wraps[i];
        match lookup_prior(pre, id) {
            Some(PriorState::Live { version: _ }) => {
                wrapped.push(ObjectRef { id: id, version: v, digest: Digest::Wrapped });
            },
            _ => {},
        }
        i = i + 1;
    }

    let mut deleted: Vec<ObjectRef> = Vec::new();
    let mut unwrapped_then_deleted: Vec<ObjectRef> = Vec::new();
    let mut i: usize = 0;
    while i < outcome.deletes.len()
        invariant
            i <= outcome.deletes@.len(),
            deleted@ == deleted_of(pre@, outcome.deletes@.take(i as int), v),
            unwrapped_then_deleted@
                == unwrapped_then_deleted_of(pre@, outcome.deletes@.take(i as int), v),
        decreases outcome.deletes@.len() - i,
    {
        proof {
            assert(outcome.deletes@.take(i + 1).drop_last() =~= outcome.deletes@.take(i as int));
            assert(outcome.deletes@.take(i + 1).last() == outcome.deletes@[i as int]);
        }
        let id = outcome.deletes[i];
        let entry = ObjectRef { id: id, version: v, digest: Digest::Deleted };
        match lookup_prior(pre, id) {
            Some(PriorState::Embedded) => unwrapped_then_deleted.push(entry),
            _ => deleted.push(entry),
        }
        i = i + 1;
    }

    let mut modified_at_versions: Vec<(u64, u64)> = Vec::new();
    let mut i: usize = 0;
    while i < pre.len()
        invariant
            i <= pre@.len(),
            modified_at_versions@ == modified_at_of(pre@.take(i as int)),
        decreases pre@.len() - i,
    {
        proof {
            assert(pre@.take(i + 1).drop_last() =~= pre@.take(i as int));
            assert(pre@.take(i + 1).last() == pre@[i as int]);
        }
        let p = pre[i];
        match p.prior {
            PriorState::Live { version } => modified_at_versions.push((p.id, version)),
            PriorState::Embedded => {},
        }
        i = i + 1;
    }

    proof {
        lemma_created_elems(pre@, outcome.writes@, v);
        lemma_mutated_elems(pre@, outcome.writes@, v);
        lemma_unwrapped_elems(pre@, outcome.writes@, v);
        lemma_wrapped_elems(pre@, outcome.wraps@, v);
        lemma_deleted_elems(pre@, outcome.deletes@, v);
        lemma_unwrapped_then_deleted_elems(pre@, outcome.deletes@, v);
        lemma_new_version_dominates_inputs(pre@, v);
    }
    let gas_write = match find_gas_write(&outcome.writes, gas_id) {
        Some(w) => w,
        None => {
            proof {
                assert(false);
            }
            WriteOp { id: gas_id, owner: Owner::Immutable, content: 0 }
        },
    };
    proof {
        assert(outcome.writes@.take(outcome.writes@.len() as int) =~= outcome.writes@);
        assert(outcome.wraps@.take(outcome.wraps@.len() as int) =~= outcome.wraps@);
        assert(outcome.deletes@.take(outcome.deletes@.len() as int) =~= outcome.deletes@);
        assert(pre@.take(pre@.len() as int) =~= pre@);
    }
    EffectsRecord {
        status,
        lamport_version: v,
        created,
        mutated,
        unwrapped,
        wrapped,
        deleted,
        unwrapped_then_deleted,
        modified_at_versions,
        gas_object: (
            ObjectRef { id: gas_id, version: v, digest: Digest::Live(gas_write.content) },
            gas_write.owner,
        ),
    }
}

/// Collects the versions of every causal input of the transaction.
fn collect_prior_versions(pre: &Vec<PreObject>) -> (r: Vec<u64>)
    ensures
        r@ == prior_versions(pre@),
{
    let mut r: Vec<u64> = Vec::new();
    let mut i: usize = 0;
    while i < pre.len()
        invariant
            i <= pre@.len(),
            r@ == prior_versions(pre@.take(i as int)),
        decreases pre@.len() - i,
    {
        proof {
            assert(pre@.take(i + 1).drop_last() =~= pre@.take(i as int));
            assert(pre@.take(i + 1).last() == pre@[i as int]);
        }
        match pre[i].prior {
            PriorState::Live { version } => r.push(version),
            PriorState::Embedded => {},
        }
        i = i + 1;
    }
    proof {
        assert(pre@.take(pre@.len() as int) =~= pre@);
    }
    r
}

/// Finds the prior state recorded for `id`.
fn lookup_prior(pre: &Vec<PreObject>, id: u64) -> (r: Option<PriorState>)
    ensures
        r == pre_lookup(pre@, id),
{
    let mut i: usize = pre.len();
    proof {
        assert(pre@.take(pre@.len() as int) =~= pre@);
    }
    while i > 0
        invariant
            i <= pre@.len(),
            pre_lookup(pre@, id) == pre_lookup(pre@.take(i as int), id),
        decreases i,
    {
        i = i - 1;
        proof {
            assert(pre@.take(i + 1).drop_last() =~= pre@.take(i as int));
            assert(pre@.take(i + 1).last() == pre@[i as int]);
        }
        if pre[i].id == id {
            return Some(pre[i].prior);
        }
    }
    None
}

/// Finds the first write for `id`, in execution order.
fn find_gas_write(writes: &Vec<WriteOp>, id: u64) -> (r: Option<WriteOp>)
    ensures
        r == find_write(writes@, id),
{
    let mut i: usize = 0;
    proof {
        assert(writes@.skip(0) =~= writes@);
    }
    while i < writes.len()
        invariant
            i <= writes@.len(),
            find_write(writes@, id) == find_write(writes@.skip(i as int), id),
        decreases writes@.len() - i,
    {
        proof {
            assert(writes@.skip(i as int).first() == writes@[i as int]);
            assert(writes@.skip(i as int).drop_first() =~= writes@.skip(i + 1));
        }
        if writes[i].id == id {
            return Some(writes[i]);
        }
        i = i + 1;
    }
    proof {
        assert(writes@.skip(writes@.len() as int) =~= Seq::<WriteOp>::empty());
    }
    None
}

/// Every created entry carries the transaction's version and a live
/// digest, had no prior record, and stems from a write.
pub proof fn lemma_created_elems(pre: Seq<PreObject>, writes: Seq<WriteOp>, v: u64)
    ensures
        forall|i: int| 0 <= i < created_of(pre, writes, v).len() ==> {
            let e = #[trigger] created_of(pre, writes, v)[i];
            e.0.version == v && e.0.digest is Live && pre_lookup(pre, e.0.id) is None
                && exists|j: int| 0 <= j < writes.len() && writes[j].id == e.0.id
        },
    decreases writes.len(),
{
    if writes.len() > 0 {
        lemma_created_elems(pre, writes.drop_last(), v);
        assert forall|i: int| 0 <= i < created_of(pre, writes, v).len() implies {
            let e = #[trigger] created_of(pre, writes, v)[i];
            e.0.version == v && e.0.digest is Live && pre_lookup(pre, e.0.id) is None
                && exists|j: int| 0 <= j < writes.len() && writes[j].id == e.0.id
        } by {
            let e = created_of(pre, writes, v)[i];
            if i < created_of(pre, writes.drop_last(), v).len() {
                assert(e == created_of(pre, writes.drop_last(), v)[i]);
                let j = choose|j: int| 0 <= j < writes.drop_last().len()
                    && writes.drop_last()[j].id == e.0.id;
                assert(writes[j].id == e.0.id);
            } else {
                assert(writes[writes.len() - 1].id == e.0.id);
            }
        }
    }
}

/// Every mutated entry carries the transaction's version and a live
/// digest, had a prior top-level version, and stems from a write.
pub proof fn lemma_mutated_elems(pre: Seq<PreObject>, writes: Seq<WriteOp>, v: u64)
    ensures
        forall|i: int| 0 <= i < mutated_of(pre, writes, v).len() ==> {
            let e = #[trigger] mutated_of(pre, writes, v)[i];
            e.0.version == v && e.0.digest is Live && prior_live(pre, e.0.id)
                && exists|j: int| 0 <= j < writes.len() && writes[j].id == e.0.id
        },
    decreases writes.len(),
{
    if writes.len() > 0 {
        lemma_mutated_elems(pre, writes.drop_last(), v);
        assert forall|i: int| 0 <= i < mutated_of(pre, writes, v).len() implies {
            let e = #[trigger] mutated_of(pre, writes, v)[i];
            e.0.version == v && e.0.digest is Live && prior_live(pre, e.0.id)
                && exists|j: int| 0 <= j < writes.len() && writes[j].id == e.0.id
        } by {
            let e = mutated_of(pre, writes, v)[i];
            if i < mutated_of(pre, writes.drop_last(), v).len() {
                assert(e == mutated_of(pre, writes.drop_last(), v)[i]);
                let j = choose|j: int| 0 <= j < writes.drop_last().len()
                    && writes.drop_last()[j].id == e.0.id;
                assert(writes[j].id == e.0.id);
            } else {
                assert(writes[writes.len() - 1].id == e.0.id);
            }
        }
    }
}

/// Every unwrapped entry carries the transaction's version and a live
/// digest, was previously embedded, and stems from a write.
pub proof fn lemma_unwrapped_elems(pre: Seq<PreObject>, writes: Seq<WriteOp>, v: u64)
    ensures
        forall|i: int| 0 <= i < unwrapped_of(pre, writes, v).len() ==> {
            let e = #[trigger] unwrapped_of(pre, writes, v)[i];
            e.0.version == v && e.0.digest is Live && prior_embedded(pre, e.0.id)
                && exists|j: int| 0 <= j < writes.len() && writes[j].id == e.0.id
        },
    decreases writes.len(),
{
    if writes.len() > 0 {
        lemma_unwrapped_elems(pre, writes.drop_last(), v);
        assert forall|i: int| 0 <= i < unwrapped_of(pre, writes, v).len() implies {
            let e = #[trigger] unwrapped_of(pre, writes, v)[i];
            e.0.version == v && e.0.digest is Live && prior_embedded(pre, e.0.id)
                && exists|j: int| 0 <= j < writes.len() && writes[j].id == e.0.id
        } by {
            let e = unwrapped_of(pre, writes, v)[i];
            if i < unwrapped_of(pre, writes.drop_last(), v).len() {
                assert(e == unwrapped_of(pre, writes.drop_last(), v)[i]);
                let j = choose|j: int| 0 <= j < writes.drop_last().len()
                    && writes.drop_last()[j].id == e.0.id;
                assert(writes[j].id == e.0.id);
            } else {
                assert(writes[writes.len() - 1].id == e.0.id);
            }
        }
    }
}

/// Every wrapped entry carries the transaction's version and the wrapped
/// sentinel, was previously live, and stems from an absorbed id.
pub proof fn lemma_wrapped_elems(pre: Seq<PreObject>, wraps: Seq<u64>, v: u64)
    ensures
        forall|i: int| 0 <= i < wrapped_of(pre, wraps, v).len() ==> {
            let e = #[trigger] wrapped_of(pre, wraps, v)[i];
            e.version == v && e.digest is Wrapped && prior_live(pre, e.id)
                && exists|j: int| 0 <= j < wraps.len() && wraps[j] == e.id
        },
    decreases wraps.len(),
{
    if wraps.len() > 0 {
        lemma_wrapped_elems(pre, wraps.drop_last(), v);
        assert forall|i: int| 0 <= i < wrapped_of(pre, wraps, v).len() implies {
            let e = #[trigger] wrapped_of(pre, wraps, v)[i];
            e.version == v && e.digest is Wrapped && prior_live(pre, e.id)
                && exists|j: int| 0 <= j < wraps.len() && wraps[j] == e.id
        } by {
            let e = wrapped_of(pre, wraps, v)[i];
            if i < wrapped_of(pre, wraps.drop_last(), v).len() {
                assert(e == wrapped_of(pre, wraps.drop_last(), v)[i]);
                let j = choose|j: int| 0 <= j < wraps.drop_last().len()
                    && wraps.drop_last()[j] == e.id;
                assert(wraps[j] == e.id);
            } else {
                assert(wraps[wraps.len() - 1] == e.id);
            }
        }
    }
}

/// Every deleted entry carries the transaction's version and the deleted
/// sentinel, was not previously embedded, and stems from a removed id.
pub proof fn lemma_deleted_elems(pre: Seq<PreObject>, deletes: Seq<u64>, v: u64)
    ensures
        forall|i: int| 0 <= i < deleted_of(pre, deletes, v).len() ==> {
            let e = #[trigger] deleted_of(pre, deletes, v)[i];
            e.version == v && e.digest is Deleted && !prior_embedded(pre, e.id)
                && exists|j: int| 0 <= j < deletes.len() && deletes[j] == e.id
        },
    decreases deletes.len(),
{
    if deletes.len() > 0 {
        lemma_deleted_elems(pre, deletes.drop_last(), v);
        assert forall|i: int| 0 <= i < deleted_of(pre, deletes, v).len() implies {
            let e = #[trigger] deleted_of(pre, deletes, v)[i];
            e.version == v && e.digest is Deleted && !prior_embedded(pre, e.id)
                && exists|j: int| 0 <= j < deletes.len() && deletes[j] == e.id
        } by {
            let e = deleted_of(pre, deletes, v)[i];
            if i < deleted_of(pre, deletes.drop_last(), v).len() {
                assert(e == deleted_of(pre, deletes.drop_last(), v)[i]);
                let j = choose|j: int| 0 <= j < deletes.drop_last().len()
                    && deletes.drop_last()[j] == e.id;
                assert(deletes[j] == e.id);
            } else {
                assert(deletes[deletes.len() - 1] == e.id);
            }
        }
    }
}

/// Every unwrapped-then-deleted entry carries the transaction's version
/// and the deleted sentinel, was previously embedded, and stems from a
/// removed id.
pub proof fn lemma_unwrapped_then_deleted_elems(pre: Seq<PreObject>, deletes: Seq<u64>, v: u64)
    ensures
        forall|i: int| 0 <= i < unwrapped_then_deleted_of(pre, deletes, v).len() ==> {
            let e = #[trigger] unwrapped_then_deleted_of(pre, deletes, v)[i];
            e.version == v && e.digest is Deleted && prior_embedded(pre, e.id)
                && exists|j: int| 0 <= j < deletes.len() && deletes[j] == e.id
        },
    decreases deletes.len(),
{
    if deletes.len() > 0 {
        lemma_unwrapped_then_deleted_elems(pre, deletes.drop_last(), v);
        assert forall|i: int| 0 <= i < unwrapped_then_deleted_of(pre, deletes, v).len() implies {
            let e = #[trigger] unwrapped_then_deleted_of(pre, deletes, v)[i];
            e.version == v && e.digest is Deleted && prior_embedded(pre, e.id)
                && exists|j: int| 0 <= j < deletes.len() && deletes[j] == e.id
        } by {
            let e = unwrapped_then_deleted_of(pre, deletes, v)[i];
            if i < unwrapped_then_deleted_of(pre, deletes.drop_last(), v).len() {
                assert(e == unwrapped_then_deleted_of(pre, deletes.drop_last(), v)[i]);
                let j = choose|j: int| 0 <= j < deletes.drop_last().len()
                    && deletes.drop_last()[j] == e.id;
                assert(deletes[j] == e.id);
            } else {
                assert(deletes[deletes.len() - 1] == e.id);
            }
        }
    }
}

/// The version recorded for a live prior entry occurs among the causal
/// input versions.
pub proof fn lemma_prior_version_among_inputs(pre: Seq<PreObject>, id: u64, pv: u64)
    requires
        pre_lookup(pre, id) == Some(PriorState::Live { version: pv }),
    ensures
        prior_versions(pre).contains(pv),
    decreases pre.len(),
{
    if pre.len() > 0 {
        if pre.last().id == id {
            assert(prior_versions(pre).last() == pv);
        } else {
            lemma_prior_version_among_inputs(pre.drop_last(), id, pv);
            let j = choose|j: int| 0 <= j < prior_versions(pre.drop_last()).len()
                && prior_versions(pre.drop_last())[j] == pv;
            assert(prior_versions(pre)[j] == pv);
        }
    }
}

/// Each recorded pre-image version occurs among the causal input versions.
pub proof fn lemma_modified_version_among_inputs(pre: Seq<PreObject>, i: int)
    requires
        0 <= i < modified_at_of(pre).len(),
    ensures
        prior_versions(pre).contains(modified_at_of(pre)[i].1),
    decreases pre.len(),
{
    if pre.len() > 0 {
        if i < modified_at_of(pre.drop_last()).len() {
            lemma_modified_version_among_inputs(pre.drop_last(), i);
            let j = choose|j: int| 0 <= j < prior_versions(pre.drop_last()).len()
                && prior_versions(pre.drop_last())[j] == modified_at_of(pre.drop_last())[i].1;
            assert(prior_versions(pre)[j] == modified_at_of(pre)[i].1);
        } else {
            assert(prior_versions(pre).last() == modified_at_of(pre)[i].1);
        }
    }
}

/// The new version strictly dominates the start-of-transaction version of
/// every touched object: no object is ever assigned a version at or below
/// one of its causal dependencies.
pub proof fn lemma_new_version_dominates_inputs(pre: Seq<PreObject>, v: u64)
    requires
        v as nat == lamport_successor(prior_versions(pre)),
    ensures
        forall|i: int| 0 <= i < modified_at_of(pre).len()
            ==> (#[trigger] modified_at_of(pre)[i]).1 < v,
{
    assert forall|i: int| 0 <= i < modified_at_of(pre).len() implies
        (#[trigger] modified_at_of(pre)[i]).1 < v by {
        lemma_modified_version_among_inputs(pre, i);
        let j = choose|j: int| 0 <= j < prior_versions(pre).len()
            && prior_versions(pre)[j] == modified_at_of(pre)[i].1;
        lemma_seq_max_ge(prior_versions(pre), j);
    }
}

/// Classification is a partition: when execution reports a well-formed
/// outcome, an object id appears in at most one of the six
/// classification sets; in particular an unwrapped-then-deleted object
/// never also appears among the deleted.
pub proof fn lemma_classification_disjoint(
    pre: Seq<PreObject>,
    outcome: ExecutionOutcome,
    v: u64,
)
    requires
        outcome.wf(),
    ensures
        forall|i: int, j: int| 0 <= i < created_of(pre, outcome.writes@, v).len()
            && 0 <= j < mutated_of(pre, outcome.writes@, v).len()
            ==> (#[trigger] created_of(pre, outcome.writes@, v)[i]).0.id
                != (#[trigger] mutated_of(pre, outcome.writes@, v)[j]).0.id,
        forall|i: int, j: int| 0 <= i < created_of(pre, outcome.writes@, v).len()
            && 0 <= j < unwrapped_of(pre, outcome.writes@, v).len()
            ==> (#[trigger] created_of(pre, outcome.writes@, v)[i]).0.id
                != (#[trigger] unwrapped_of(pre, outcome.writes@, v)[j]).0.id,
        forall|i: int, j: int| 0 <= i < created_of(pre, outcome.writes@, v).len()
            && 0 <= j < wrapped_of(pre, outcome.wraps@, v).len()
            ==> (#[trigger] created_of(pre, outcome.writes@, v)[i]).0.id
                != (#[trigger] wrapped_of(pre, outcome.wraps@, v)[j]).id,
        forall|i: int, j: int| 0 <= i < created_of(pre, outcome.writes@, v).len()
            && 0 <= j < deleted_of(pre, outcome.deletes@, v).len()
            ==> (#[trigger] created_of(pre, outcome.writes@, v)[i]).0.id
                != (#[trigger] deleted_of(pre, outcome.deletes@, v)[j]).id,
        forall|i: int, j: int| 0 <= i < created_of(pre, outcome.writes@, v).len()
            && 0 <= j < unwrapped_then_deleted_of(pre, outcome.deletes@, v).len()
            ==> (#[trigger] created_of(pre, outcome.writes@, v)[i]).0.id
                != (#[trigger] unwrapped_then_deleted_of(pre, outcome.deletes@, v)[j]).id,
        forall|i: int, j: int| 0 <= i < mutated_of(pre, outcome.writes@, v).len()
            && 0 <= j < unwrapped_of(pre, outcome.writes@, v).len()
            ==> (#[trigger] mutated_of(pre, outcome.writes@, v)[i]).0.id
                != (#[trigger] unwrapped_of(pre, outcome.writes@, v)[j]).0.id,
        forall|i: int, j: int| 0 <= i < mutated_of(pre, outcome.writes@, v).len()
            && 0 <= j < wrapped_of(pre, outcome.wraps@, v).len()
            ==> (#[trigger] mutated_of(pre, outcome.writes@, v)[i]).0.id
                != (#[trigger] wrapped_of(pre, outcome.wraps@, v)[j]).id,
        forall|i: int, j: int| 0 <= i < mutated_of(pre, outcome.writes@, v).len()
            && 0 <= j < deleted_of(pre, outcome.deletes@, v).len()
            ==> (#[trigger] mutated_of(pre, outcome.writes@, v)[i]).0.id
                != (#[trigger] deleted_of(pre, outcome.deletes@, v)[j]).id,
        forall|i: int, j: int| 0 <= i < mutated_of(pre, outcome.writes@, v).len()
            && 0 <= j < unwrapped_then_deleted_of(pre, outcome.deletes@, v).len()
            ==> (#[trigger] mutated_of(pre, outcome.writes@, v)[i]).0.id
                != (#[trigger] unwrapped_then_deleted_of(pre, outcome.deletes@, v)[j]).id,
        forall|i: int, j: int| 0 <= i < unwrapped_of(pre, outcome.writes@, v).len()
            && 0 <= j < wrapped_of(pre, outcome.wraps@, v).len()
            ==> (#[trigger] unwrapped_of(pre, outcome.writes@, v)[i]).0.id
                != (#[trigger] wrapped_of(pre, outcome.wraps@, v)[j]).id,
        forall|i: int, j: int| 0 <= i < unwrapped_of(pre, outcome.writes@, v).len()
            && 0 <= j < deleted_of(pre, outcome.deletes@, v).len()
            ==> (#[trigger] unwrapped_of(pre, outcome.writes@, v)[i]).0.id
                != (#[trigger] deleted_of(pre, outcome.deletes@, v)[j]).id,
        forall|i: int, j: int| 0 <= i < unwrapped_of(pre, outcome.writes@, v).len()
            && 0 <= j < unwrapped_then_deleted_of(pre, outcome.deletes@, v).len()
            ==> (#[trigger] unwrapped_of(pre, outcome.writes@, v)[i]).0.id
                != (#[trigger] unwrapped_then_deleted_of(pre, outcome.deletes@, v)[j]).id,
        forall|i: int, j: int| 0 <= i < wrapped_of(pre, outcome.wraps@, v).len()
            && 0 <= j < deleted_of(pre, outcome.deletes@, v).len()
            ==> (#[trigger] wrapped_of(pre, outcome.wraps@, v)[i]).id
                != (#[trigger] deleted_of(pre, outcome.deletes@, v)[j]).id,
        forall|i: int, j: int| 0 <= i < wrapped_of(pre, outcome.wraps@, v).len()
            && 0 <= j < unwrapped_then_deleted_of(pre, outcome.deletes@, v).len()
            ==> (#[trigger] wrapped_of(pre, outcome.wraps@, v)[i]).id
                != (#[trigger] unwrapped_then_deleted_of(pre, outcome.deletes@, v)[j]).id,
        forall|i: int, j: int| 0 <= i < deleted_of(pre, outcome.deletes@, v).len()
            && 0 <= j < unwrapped_then_deleted_of(pre, outcome.deletes@, v).len()
            ==> (#[trigger] deleted_of(pre, outcome.deletes@, v)[i]).id
                != (#[trigger] unwrapped_then_deleted_of(pre, outcome.deletes@, v)[j]).id,
{
    lemma_created_elems(pre, outcome.writes@, v);
    lemma_mutated_elems(pre, outcome.writes@, v);
    lemma_unwrapped_elems(pre, outcome.writes@, v);
    lemma_wrapped_elems(pre, outcome.wraps@, v);
    lemma_deleted_elems(pre, outcome.deletes@, v);
    lemma_unwrapped_then_deleted_elems(pre, outcome.deletes@, v);
    assert forall|i: int, j: int| 0 <= i < created_of(pre, outcome.writes@, v).len()
        && 0 <= j < deleted_of(pre, outcome.deletes@, v).len()
        implies (#[trigger] created_of(pre, outcome.writes@, v)[i]).0.id
            != (#[trigger] deleted_of(pre, outcome.deletes@, v)[j]).id by {
        let a = created_of(pre, outcome.writes@, v)[i].0.id;
        let b = deleted_of(pre, outcome.deletes@, v)[j].id;
        let jw = choose|k: int| 0 <= k < outcome.writes@.len() && outcome.writes@[k].id == a;
        let jd = choose|k: int| 0 <= k < outcome.deletes@.len() && outcome.deletes@[k] == b;
        assert(outcome.writes@[jw].id != outcome.deletes@[jd]);
    }
    assert forall|i: int, j: int| 0 <= i < mutated_of(pre, outcome.writes@, v).len()
        && 0 <= j < deleted_of(pre, outcome.deletes@, v).len()
        implies (#[trigger] mutated_of(pre, outcome.writes@, v)[i]).0.id
            != (#[trigger] deleted_of(pre, outcome.deletes@, v)[j]).id by {
        let a = mutated_of(pre, outcome.writes@, v)[i].0.id;
        let b = deleted_of(pre, outcome.deletes@, v)[j].id;
        let jw = choose|k: int| 0 <= k < outcome.writes@.len() && outcome.writes@[k].id == a;
        let jd = choose|k: int| 0 <= k < outcome.deletes@.len() && outcome.deletes@[k] == b;
        assert(outcome.writes@[jw].id != outcome.deletes@[jd]);
    }
    assert forall|i: int, j: int| 0 <= i < unwrapped_of(pre, outcome.writes@, v).len()
        && 0 <= j < unwrapped_then_deleted_of(pre, outcome.deletes@, v).len()
        implies (#[trigger] unwrapped_of(pre, outcome.writes@, v)[i]).0.id
            != (#[trigger] unwrapped_then_deleted_of(pre, outcome.deletes@, v)[j]).id by {
        let a = unwrapped_of(pre, outcome.writes@, v)[i].0.id;
        let b = unwrapped_then_deleted_of(pre, outcome.deletes@, v)[j].id;
        let jw = choose|k: int| 0 <= k < outcome.writes@.len() && outcome.writes@[k].id == a;
        let jd = choose|k: int| 0 <= k < outcome.deletes@.len() && outcome.deletes@[k] == b;
        assert(outcome.writes@[jw].id != outcome.deletes@[jd]);
    }
    assert forall|i: int, j: int| 0 <= i < mutated_of(pre, outcome.writes@, v).len()
        && 0 <= j < wrapped_of(pre, outcome.wraps@, v).len()
        implies (#[trigger] mutated_of(pre, outcome.writes@, v)[i]).0.id
            != (#[trigger] wrapped_of(pre, outcome.wraps@, v)[j]).id by {
        let a = mutated_of(pre, outcome.writes@, v)[i].0.id;
        let b = wrapped_of(pre, outcome.wraps@, v)[j].id;
        let jw = choose|k: int| 0 <= k < outcome.writes@.len() && outcome.writes@[k].id == a;
        let jd = choose|k: int| 0 <= k < outcome.wraps@.len() && outcome.wraps@[k] == b;
        assert(outcome.writes@[jw].id != outcome.wraps@[jd]);
    }
    assert forall|i: int, j: int| 0 <= i < wrapped_of(pre, outcome.wraps@, v).len()
        && 0 <= j < deleted_of(pre, outcome.deletes@, v).len()
        implies (#[trigger] wrapped_of(pre, outcome.wraps@, v)[i]).id
            != (#[trigger] deleted_of(pre, outcome.deletes@, v)[j]).id by {
        let a = wrapped_of(pre, outcome.wraps@, v)[i].id;
        let b = deleted_of(pre, outcome.deletes@, v)[j].id;
        let jw = choose|k: int| 0 <= k < outcome.wraps@.len() && outcome.wraps@[k] == a;
        let jd = choose|k: int| 0 <= k < outcome.deletes@.len() && outcome.deletes@[k] == b;
        assert(outcome.deletes@[jd] != outcome.wraps@[jw]);
    }
}

/// Deleting a parent that owns one wrapped child -- a child that was
/// embedded when the transaction began and never independently created in
/// it -- produces exactly one deleted entry, the parent, and exactly one
/// unwrapped-then-deleted entry, the child.
pub proof fn lemma_delete_parent_with_wrapped_child(
    pre: Seq<PreObject>,
    deletes: Seq<u64>,
    v: u64,
    parent_id: u64,
    child_id: u64,
)
    requires
        deletes == seq![parent_id, child_id],
        prior_live(pre, parent_id),
        prior_embedded(pre, child_id),
    ensures
        deleted_of(pre, deletes, v)
            == seq![ObjectRef { id: parent_id, version: v, digest: Digest::Deleted }],
        unwrapped_then_deleted_of(pre, deletes, v)
            == seq![ObjectRef { id: child_id, version: v, digest: Digest::Deleted }],
{
    reveal_with_fuel(deleted_of, 3);
    reveal_with_fuel(unwrapped_then_deleted_of, 3);
    assert(deletes.drop_last() =~= seq![parent_id]);
    assert(seq![parent_id].drop_last() =~= Seq::<u64>::empty());
    assert(deleted_of(pre, deletes, v)
        =~= seq![ObjectRef { id: parent_id, version: v, digest: Digest::Deleted }]);
    assert(unwrapped_then_deleted_of(pre, deletes, v)
        =~= seq![ObjectRef { id: child_id, version: v, digest: Digest::Deleted }]);
}

/// Wrap/unwrap round trip.  Wrapping an object in one transaction and
/// unwrapping it in a later one preserves its id, strictly increases its
/// version at both steps, and moves its digest live -> wrapped -> live,
/// never directly live -> live.  The second transaction necessarily reads
/// the carrier of the embedded state, an object whose version is at least
/// the wrapping transaction's version.
pub proof fn lemma_wrap_unwrap_round_trip(
    pre1: Seq<PreObject>,
    wraps1: Seq<u64>,
    v1: u64,
    pre2: Seq<PreObject>,
    writes2: Seq<WriteOp>,
    v2: u64,
    id: u64,
    pv: u64,
    i1: int,
    i2: int,
    carrier: int,
)
    requires
        v1 as nat == lamport_successor(prior_versions(pre1)),
        v2 as nat == lamport_successor(prior_versions(pre2)),
        pre_lookup(pre1, id) == Some(PriorState::Live { version: pv }),
        0 <= i1 < wrapped_of(pre1, wraps1, v1).len(),
        wrapped_of(pre1, wraps1, v1)[i1].id == id,
        prior_embedded(pre2, id),
        0 <= i2 < unwrapped_of(pre2, writes2, v2).len(),
        unwrapped_of(pre2, writes2, v2)[i2].0.id == id,
        0 <= carrier < prior_versions(pre2).len(),
        prior_versions(pre2)[carrier] >= v1,
    ensures
        wrapped_of(pre1, wraps1, v1)[i1]
            == (ObjectRef { id: id, version: v1, digest: Digest::Wrapped }),
        unwrapped_of(pre2, writes2, v2)[i2].0.version == v2,
        unwrapped_of(pre2, writes2, v2)[i2].0.digest is Live,
        pv < v1 < v2,
{
    lemma_wrapped_elems(pre1, wraps1, v1);
    lemma_unwrapped_elems(pre2, writes2, v2);
    lemma_prior_version_among_inputs(pre1, id, pv);
    let j = choose|j: int| 0 <= j < prior_versions(pre1).len() && prior_versions(pre1)[j] == pv;
    lemma_seq_max_ge(prior_versions(pre1), j);
    lemma_seq_max_ge(prior_versions(pre2), carrier);
}

/// The mutated entries other than the gas object itself.
pub open spec fn non_gas_mutated(entries: Seq<(ObjectRef, Owner)>, gas_id: u64)
    -> Seq<(ObjectRef, Owner)>
    decreases entries.len(),
{
    if entries.len() == 0 {
        Seq::empty()
    } else {
        non_gas_mutated(entries.drop_last(), gas_id) + if entries.last().0.id != gas_id {
            seq![entries.last()]
        } else {
            Seq::empty()
        }
    }
}

impl EffectsRecord {
    /// Outcome of the transaction's commands.
    pub fn status(&self) -> (r: &ExecutionStatus)
        ensures
            r == &self.status,
    {
        &self.status
    }

    /// Objects created by the transaction, with their owners.
    pub fn created(&self) -> (r: &Vec<(ObjectRef, Owner)>)
        ensures
            r == &self.created,
    {
        &self.created
    }

    /// Objects mutated in place, with their owners; includes the gas
    /// object.
    pub fn mutated(&self) -> (r: &Vec<(ObjectRef, Owner)>)
        ensures
            r == &self.mutated,
    {
        &self.mutated
    }

    /// Objects that surfaced from embedded state, with their owners.
    pub fn unwrapped(&self) -> (r: &Vec<(ObjectRef, Owner)>)
        ensures
            r == &self.unwrapped,
    {
        &self.unwrapped
    }

    /// Objects absorbed into a parent, at their transition version.
    pub fn wrapped(&self) -> (r: &Vec<ObjectRef>)
        ensures
            r == &self.wrapped,
    {
        &self.wrapped
    }

    /// Objects removed that had a top-level version.
    pub fn deleted(&self) -> (r: &Vec<ObjectRef>)
        ensures
            r == &self.deleted,
    {
        &self.deleted
    }

    /// Objects removed that were only ever embedded state.
    pub fn unwrapped_then_deleted(&self) -> (r: &Vec<ObjectRef>)
        ensures
            r == &self.unwrapped_then_deleted,
    {
        &self.unwrapped_then_deleted
    }

    /// The start-of-transaction version of every touched object.
    pub fn modified_at_versions(&self) -> (r: &Vec<(u64, u64)>)
        ensures
            r == &self.modified_at_versions,
    {
        &self.modified_at_versions
    }

    /// The gas object's resulting reference and owner.
    pub fn gas_object(&self) -> (r: &(ObjectRef, Owner))
        ensures
            r == &self.gas_object,
    {
        &self.gas_object
    }

    /// The mutated entries other than the gas object.
    pub fn mutated_excluding_gas(&self) -> (r: Vec<(ObjectRef, Owner)>)
        ensures
            r@ == non_gas_mutated(self.mutated@, self.gas_object.0.id),
    {
        let gas_id = self.gas_object.0.id;
        let mut r: Vec<(ObjectRef, Owner)> = Vec::new();
        let mut i: usize = 0;
        while i < self.mutated.len()
            invariant
                i <= self.mutated@.len(),
                r@ == non_gas_mutated(self.mutated@.take(i as int), gas_id),
                gas_id == self.gas_object.0.id,
            decreases self.mutated@.len() - i,
        {
            proof {
                assert(self.mutated@.take(i + 1).drop_last() =~= self.mutated@.take(i as int));
                assert(self.mutated@.take(i + 1).last() == self.mutated@[i as int]);
            }
            let entry = self.mutated[i];
            if entry.0.id != gas_id {
                r.push(entry);
            }
            i = i + 1;
        }
        proof {
            assert(self.mutated@.take(self.mutated@.len() as int) =~= self.mutated@);
        }
        r
    }
}

/// Every reported write surfaces in the classification set its prior
/// state selects: created when it had no prior record, mutated when it
/// had a top-level version, unwrapped when it was embedded.  Together
/// with the disjointness of the sets, each touched id appears in exactly
/// one set.
pub proof fn lemma_writes_covered(pre: Seq<PreObject>, writes: Seq<WriteOp>, v: u64)
    ensures
        forall|j: int| 0 <= j < writes.len() && pre_lookup(pre, (#[trigger] writes[j]).id) is None
            ==> exists|i: int| 0 <= i < created_of(pre, writes, v).len()
                && created_of(pre, writes, v)[i] == (
                    ObjectRef { id: writes[j].id, version: v, digest: Digest::Live(writes[j].content) },
                    writes[j].owner,
                ),
        forall|j: int| 0 <= j < writes.len() && prior_live(pre, (#[trigger] writes[j]).id)
            ==> exists|i: int| 0 <= i < mutated_of(pre, writes, v).len()
                && mutated_of(pre, writes, v)[i] == (
                    ObjectRef { id: writes[j].id, version: v, digest: Digest::Live(writes[j].content) },
                    writes[j].owner,
                ),
        forall|j: int| 0 <= j < writes.len() && prior_embedded(pre, (#[trigger] writes[j]).id)
            ==> exists|i: int| 0 <= i < unwrapped_of(pre, writes, v).len()
                && unwrapped_of(pre, writes, v)[i] == (
                    ObjectRef { id: writes[j].id, version: v, digest: Digest::Live(writes[j].content) },
                    writes[j].owner,
                ),
    decreases writes.len(),
{
    if writes.len() > 0 {
        let shorter = writes.drop_last();
        lemma_writes_covered(pre, shorter, v);
        assert forall|j: int| 0 <= j < writes.len()
            && pre_lookup(pre, (#[trigger] writes[j]).id) is None
            implies exists|i: int| 0 <= i < created_of(pre, writes, v).len()
                && created_of(pre, writes, v)[i] == (
                    ObjectRef { id: writes[j].id, version: v, digest: Digest::Live(writes[j].content) },
                    writes[j].owner,
                ) by {
            if j < writes.len() - 1 {
                assert(shorter[j] == writes[j]);
                let i = choose|i: int| 0 <= i < created_of(pre, shorter, v).len()
                    && created_of(pre, shorter, v)[i] == (
                        ObjectRef { id: writes[j].id, version: v, digest: Digest::Live(writes[j].content) },
                        writes[j].owner,
                    );
                assert(created_of(pre, writes, v)[i] == created_of(pre, shorter, v)[i]);
            } else {
                let i = created_of(pre, writes, v).len() - 1;
                assert(created_of(pre, writes, v)[i] == (
                    ObjectRef { id: writes[j].id, version: v, digest: Digest::Live(writes[j].content) },
                    writes[j].owner,
                ));
            }
        }
        assert forall|j: int| 0 <= j < writes.len()
            && prior_live(pre, (#[trigger] writes[j]).id)
            implies exists|i: int| 0 <= i < mutated_of(pre, writes, v).len()
                && mutated_of(pre, writes, v)[i] == (
                    ObjectRef { id: writes[j].id, version: v, digest: Digest::Live(writes[j].content) },
                    writes[j].owner,
                ) by {
            if j < writes.len() - 1 {
                assert(shorter[j] == writes[j]);
                let i = choose|i: int| 0 <= i < mutated_of(pre, shorter, v).len()
                    && mutated_of(pre, shorter, v)[i] == (
                        ObjectRef { id: writes[j].id, version: v, digest: Digest::Live(writes[j].content) },
                        writes[j].owner,
                    );
                assert(mutated_of(pre, writes, v)[i] == mutated_of(pre, shorter, v)[i]);
            } else {
                let i = mutated_of(pre, writes, v).len() - 1;
                assert(mutated_of(pre, writes, v)[i] == (
                    ObjectRef { id: writes[j].id, version: v, digest: Digest::Live(writes[j].content) },
                    writes[j].owner,
                ));
            }
        }
        assert forall|j: int| 0 <= j < writes.len()
            && prior_embedded(pre, (#[trigger] writes[j]).id)
            implies exists|i: int| 0 <= i < unwrapped_of(pre, writes, v).len()
                && unwrapped_of(pre, writes, v)[i] == (
                    ObjectRef { id: writes[j].id, version: v, digest: Digest::Live(writes[j].content) },
                    writes[j].owner,
                ) by {
            if j < writes.len() - 1 {
                assert(shorter[j] == writes[j]);
                let i = choose|i: int| 0 <= i < unwrapped_of(pre, shorter, v).len()
                    && unwrapped_of(pre, shorter, v)[i] == (
                        ObjectRef { id: writes[j].id, version: v, digest: Digest::Live(writes[j].content) },
                        writes[j].owner,
                    );
                assert(unwrapped_of(pre, writes, v)[i] == unwrapped_of(pre, shorter, v)[i]);
            } else {
                let i = unwrapped_of(pre, writes, v).len() - 1;
                assert(unwrapped_of(pre, writes, v)[i] == (
                    ObjectRef { id: writes[j].id, version: v, digest: Digest::Live(writes[j].content) },
                    writes[j].owner,
                ));
            }
        }
    }
}

/// Every removed id surfaces: among the deleted when it had a top-level
/// version or no record, among the unwrapped-then-deleted when it was
/// embedded.
pub proof fn lemma_deletes_covered(pre: Seq<PreObject>, deletes: Seq<u64>, v: u64)
    ensures
        forall|j: int| 0 <= j < deletes.len() && !prior_embedded(pre, #[trigger] deletes[j])
            ==> exists|i: int| 0 <= i < deleted_of(pre, deletes, v).len()
                && deleted_of(pre, deletes, v)[i] == (ObjectRef {
                    id: deletes[j],
                    version: v,
                    digest: Digest::Deleted,
                }),
        forall|j: int| 0 <= j < deletes.len() && prior_embedded(pre, #[trigger] deletes[j])
            ==> exists|i: int| 0 <= i < unwrapped_then_deleted_of(pre, deletes, v).len()
                && unwrapped_then_deleted_of(pre, deletes, v)[i] == (ObjectRef {
                    id: deletes[j],
                    version: v,
                    digest: Digest::Deleted,
                }),
    decreases deletes.len(),
{
    if deletes.len() > 0 {
        let shorter = deletes.drop_last();
        lemma_deletes_covered(pre, shorter, v);
        assert forall|j: int| 0 <= j < deletes.len()
            && !prior_embedded(pre, #[trigger] deletes[j])
            implies exists|i: int| 0 <= i < deleted_of(pre, deletes, v).len()
                && deleted_of(pre, deletes, v)[i] == (ObjectRef {
                    id: deletes[j],
                    version: v,
                    digest: Digest::Deleted,
                }) by {
            if j < deletes.len() - 1 {
                assert(shorter[j] == deletes[j]);
                let i = choose|i: int| 0 <= i < deleted_of(pre, shorter, v).len()
                    && deleted_of(pre, shorter, v)[i] == (ObjectRef {
                        id: deletes[j],
                        version: v,
                        digest: Digest::Deleted,
                    });
                assert(deleted_of(pre, deletes, v)[i] == deleted_of(pre, shorter, v)[i]);
            } else {
                let i = deleted_of(pre, deletes, v).len() - 1;
                assert(deleted_of(pre, deletes, v)[i] == (ObjectRef {
                    id: deletes[j],
                    version: v,
                    digest: Digest::Deleted,
                }));
            }
        }
        assert forall|j: int| 0 <= j < deletes.len()
            && prior_embedded(pre, #[trigger] deletes[j])
            implies exists|i: int| 0 <= i < unwrapped_then_deleted_of(pre, deletes, v).len()
                && unwrapped_then_deleted_of(pre, deletes, v)[i] == (ObjectRef {
                    id: deletes[j],
                    version: v,
                    digest: Digest::Deleted,
                }) by {
            if j < deletes.len() - 1 {
                assert(shorter[j] == deletes[j]);
                let i = choose|i: int| 0 <= i < unwrapped_then_deleted_of(pre, shorter, v).len()
                    && unwrapped_then_deleted_of(pre, shorter, v)[i] == (ObjectRef {
                        id: deletes[j],
                        version: v,
                        digest: Digest::Deleted,
                    });
                assert(unwrapped_then_deleted_of(pre, deletes, v)[i]
                    == unwrapped_then_deleted_of(pre, shorter, v)[i]);
            } else {
                let i = unwrapped_then_deleted_of(pre, deletes, v).len() - 1;
                assert(unwrapped_then_deleted_of(pre, deletes, v)[i] == (ObjectRef {
                    id: deletes[j],
                    version: v,
                    digest: Digest::Deleted,
                }));
            }
        }
    }
}

} // verus!
