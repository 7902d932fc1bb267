//! Ownership model: who may authorize mutation of an object.
//!
//! A single operation resolves authority: an address-owned object requires
//! the transaction's signer to be that address; an object-owned child
//! requires its parent chain to be present among the transaction's inputs
//! and itself authenticated, recursively; shared objects never pass the
//! plain single-owner path; immutable objects are never mutated.  The
//! chain walk is bounded by the table size, so it terminates even on
//! adversarial or inconsistent (cyclic) input.

use vstd::prelude::*;
use crate::errors::UserInputError;
use crate::model::{lookup_seq, ObjectTable, Owner, StoredObject};

verus! {

/// Resolution of mutation authority over `id` for a transaction signed by
/// `signer` whose argument objects are `tx_inputs`.  `fuel` bounds the
/// depth of the parent chain walk; a chain that exhausts it is treated as
/// an unauthenticated child chain.
pub open spec fn spec_authenticate(
    objects: Seq<StoredObject>,
    tx_inputs: Seq<u64>,
    id: u64,
    signer: u64,
    fuel: nat,
) -> Result<(), UserInputError>
    decreases fuel,
{
    match lookup_seq(objects, id) {
        None => Err(UserInputError::ObjectNotFound { object_id: id }),
        Some(o) => match o.owner {
            Owner::AddressOwner(a) => if a == signer {
                Ok(())
            } else {
                Err(UserInputError::NotSignedByOwner { object_id: id, owner_address: a })
            },
            Owner::ObjectOwner(p) => if !tx_inputs.contains(p) || fuel == 0 {
                Err(UserInputError::InvalidChildObjectArgument { child_id: id, parent_id: p })
            } else {
                spec_authenticate(objects, tx_inputs, p, signer, (fuel - 1) as nat)
            },
            Owner::Shared { initial_shared_version: _ } =>
                Err(UserInputError::SharedObjectAsSingleOwnerInput { object_id: id }),
            Owner::Immutable =>
                Err(UserInputError::MutationOfImmutableObject { object_id: id }),
        },
    }
}

/// Whether `x` occurs among the given ids.
pub fn contains_id(ids: &Vec<u64>, x: u64) -> (r: bool)
    ensures
        r == ids@.contains(x),
{
    let mut i: usize = 0;
    while i < ids.len()
        invariant
            i <= ids@.len(),
            forall|j: int| 0 <= j < i ==> ids@[j] != x,
        decreases ids@.len() - i,
    {
        if ids[i] == x {
            return true;
        }
        i = i + 1;
    }
    false
}

/// Resolves mutation authority over `id`, walking the parent chain of
/// object-owned children.  The walk is bounded by the table size: a chain
/// of distinct live objects is never longer than the table itself, so
/// only an inconsistent (cyclic) chain is cut off.
pub fn authenticate(
    table: &ObjectTable,
    tx_inputs: &Vec<u64>,
    id: u64,
    signer: u64,
) -> (r: Result<(), UserInputError>)
    ensures
        r == spec_authenticate(
            table.objects@, tx_inputs@, id, signer, table.objects@.len() as nat),
{
    let mut current: u64 = id;
    let mut fuel: usize = table.objects.len();
    loop
        invariant
            fuel <= table.objects@.len(),
            spec_authenticate(
                table.objects@, tx_inputs@, id, signer, table.objects@.len() as nat)
                == spec_authenticate(
                    table.objects@, tx_inputs@, current, signer, fuel as nat),
        decreases fuel,
    {
        match table.lookup(current) {
            None => {
                return Err(UserInputError::ObjectNotFound { object_id: current });
            },
            Some(o) => {
                match o.owner {
                    Owner::AddressOwner(a) => {
                        if a == signer {
                            return Ok(());
                        }
                        return Err(UserInputError::NotSignedByOwner {
                            object_id: current,
                            owner_address: a,
                        });
                    },
                    Owner::ObjectOwner(p) => {
                        if !contains_id(tx_inputs, p) || fuel == 0 {
                            return Err(UserInputError::InvalidChildObjectArgument {
                                child_id: current,
                                parent_id: p,
                            });
                        }
                        current = p;
                        fuel = fuel - 1;
                    },
                    Owner::Shared { initial_shared_version: _ } => {
                        return Err(UserInputError::SharedObjectAsSingleOwnerInput {
                            object_id: current,
                        });
                    },
                    Owner::Immutable => {
                        return Err(UserInputError::MutationOfImmutableObject {
                            object_id: current,
                        });
                    },
                }
            },
        }
    }
}

/// A child object accessed directly, without its authenticating parent
/// present among the transaction's inputs, fails with the ownership-chain
/// error -- a distinct error naming the child and the missing parent, not
/// a plain authorization failure.
pub proof fn lemma_child_without_parent_is_chain_error(
    objects: Seq<StoredObject>,
    tx_inputs: Seq<u64>,
    child: StoredObject,
    parent_id: u64,
    signer: u64,
    fuel: nat,
)
    requires
        lookup_seq(objects, child.id) == Some(child),
        child.owner == Owner::ObjectOwner(parent_id),
        !tx_inputs.contains(parent_id),
    ensures
        spec_authenticate(objects, tx_inputs, child.id, signer, fuel)
            == Err::<(), UserInputError>(UserInputError::InvalidChildObjectArgument {
                child_id: child.id,
                parent_id: parent_id,
            }),
{
}

/// Re-parenting: once the parent is present among the transaction's
/// inputs, authority over the child is exactly authority over the parent
/// chain -- the child adds no authorization of its own.
pub proof fn lemma_child_with_parent_defers_to_parent(
    objects: Seq<StoredObject>,
    tx_inputs: Seq<u64>,
    child: StoredObject,
    parent_id: u64,
    signer: u64,
    fuel: nat,
)
    requires
        lookup_seq(objects, child.id) == Some(child),
        child.owner == Owner::ObjectOwner(parent_id),
        tx_inputs.contains(parent_id),
        fuel > 0,
    ensures
        spec_authenticate(objects, tx_inputs, child.id, signer, fuel)
            == spec_authenticate(objects, tx_inputs, parent_id, signer, (fuel - 1) as nat),
{
}

/// Whether ownership may move from `prev` to `next` in one state change.
/// Single-owner objects move freely between an address and a parent
/// object; a shared object stays shared at its initial shared version
/// forever, and an immutable object stays immutable forever.
pub open spec fn owner_transition_ok(prev: Owner, next: Owner) -> bool {
    match prev {
        Owner::AddressOwner(_) => true,
        Owner::ObjectOwner(_) => true,
        Owner::Shared { initial_shared_version } =>
            next == Owner::Shared { initial_shared_version },
        Owner::Immutable => next == Owner::Immutable,
    }
}

/// Checks one ownership transition.
pub fn check_owner_transition(prev: &Owner, next: &Owner) -> (r: bool)
    ensures
        r == owner_transition_ok(*prev, *next),
{
    match prev {
        Owner::AddressOwner(_) => true,
        Owner::ObjectOwner(_) => true,
        Owner::Shared { initial_shared_version: v } => match next {
            Owner::Shared { initial_shared_version: w } => *v == *w,
            _ => false,
        },
        Owner::Immutable => match next {
            Owner::Immutable => true,
            _ => false,
        },
    }
}

/// Sharing and freezing are permanent: once an object is shared it can
/// only stay shared at the same initial shared version, and once
/// immutable it stays immutable.
pub proof fn lemma_shared_and_immutable_are_permanent(prev: Owner, next: Owner)
    requires
        owner_transition_ok(prev, next),
    ensures
        prev matches Owner::Shared { initial_shared_version } ==> next == (Owner::Shared {
            initial_shared_version,
        }),
        prev is Immutable ==> (next is Immutable),
{
}

/// Whether the parent chain of `id` reaches `root` within `fuel` steps:
/// `id` is transitively owned by `root` through parent links.
pub open spec fn chain_reaches(
    objects: Seq<StoredObject>,
    id: u64,
    root: u64,
    fuel: nat,
) -> bool
    decreases fuel,
{
    match lookup_seq(objects, id) {
        None => false,
        Some(o) => match o.owner {
            Owner::ObjectOwner(p) => p == root
                || (fuel > 0 && chain_reaches(objects, p, root, (fuel - 1) as nat)),
            _ => false,
        },
    }
}

/// The ids among `entries` whose parent chain reaches `root`, in table
/// order.
pub open spec fn descendants_of(
    objects: Seq<StoredObject>,
    entries: Seq<StoredObject>,
    root: u64,
) -> Seq<u64>
    decreases entries.len(),
{
    if entries.len() == 0 {
        Seq::empty()
    } else {
        descendants_of(objects, entries.drop_last(), root)
            + if chain_reaches(objects, entries.last().id, root, objects.len() as nat) {
            seq![entries.last().id]
        } else {
            Seq::empty()
        }
    }
}

/// Whether the parent chain of `id` reaches `root`, walking at most one
/// step per table entry.
pub fn reaches(table: &ObjectTable, id: u64, root: u64) -> (b: bool)
    ensures
        b == chain_reaches(table.objects@, id, root, table.objects@.len() as nat),
{
    let mut current: u64 = id;
    let mut fuel: usize = table.objects.len();
    loop
        invariant
            fuel <= table.objects@.len(),
            chain_reaches(table.objects@, id, root, table.objects@.len() as nat)
                == chain_reaches(table.objects@, current, root, fuel as nat),
        decreases fuel,
    {
        match table.lookup(current) {
            None => {
                return false;
            },
            Some(o) => {
                match o.owner {
                    Owner::ObjectOwner(p) => {
                        if p == root {
                            return true;
                        }
                        if fuel == 0 {
                            return false;
                        }
                        current = p;
                        fuel = fuel - 1;
                    },
                    _ => {
                        return false;
                    },
                }
            },
        }
    }
}

/// Collects every object transitively owned by `root` through parent
/// links, in table order: the objects a cascading deletion of `root`
/// removes besides the root itself.  Contents wrapped inside the root
/// are not independently addressable and are reported by execution, not
/// found here.
pub fn owned_descendants(table: &ObjectTable, root: u64) -> (r: Vec<u64>)
    ensures
        r@ == descendants_of(table.objects@, table.objects@, root),
{
    let mut r: Vec<u64> = Vec::new();
    let mut i: usize = 0;
    while i < table.objects.len()
        invariant
            i <= table.objects@.len(),
            r@ == descendants_of(table.objects@, table.objects@.take(i as int), root),
        decreases table.objects@.len() - i,
    {
        proof {
            assert(table.objects@.take(i + 1).drop_last() =~= table.objects@.take(i as int));
            assert(table.objects@.take(i + 1).last() == table.objects@[i as int]);
        }
        let id = table.objects[i].id;
        if reaches(table, id, root) {
            r.push(id);
        }
        i = i + 1;
    }
    proof {
        assert(table.objects@.take(table.objects@.len() as int) =~= table.objects@);
    }
    r
}

} // verus!
