//! Object model: identities, versions, digests, owners, and the table of
//! live objects a transaction resolves its inputs from.
//!
//! An object id is stable across the object's entire lifecycle and never
//! reused.  A version is a totally ordered logical clock value that
//! strictly increases on every state change, including wrapping and
//! unwrapping.  A digest is a content fingerprint or one of two sentinels
//! attached only at the transition where the transformation occurs.

use vstd::prelude::*;
use crate::errors::UserInputError;

verus! {

/// Content fingerprint of an object's state at a version, or a sentinel
/// marking the transition where it was wrapped or deleted.
#[derive(Clone, Copy, Debug, PartialEq, Eq, Structural)]
pub enum Digest {
    /// The object is live and independently addressable.
    Live(u64),
    /// The object was embedded inside another object at this transition.
    Wrapped,
    /// The object was removed at this transition.
    Deleted,
}

/// Who may authorize mutation of an object.
#[derive(Clone, Copy, Debug, PartialEq, Eq, Structural)]
pub enum Owner {
    /// Owned by an account; mutation requires that account's signature.
    AddressOwner(u64),
    /// Owned by another object through the field object with this id;
    /// mutation requires authenticating the parent chain.
    ObjectOwner(u64),
    /// Requires the consensus-ordered shared path for every mutation.
    /// Permanent once made.
    Shared { initial_shared_version: u64 },
    /// Read-only forever; never mutated.  Permanent once made.
    Immutable,
}

/// The caller-visible identity of an object at a point in time.  Two refs
/// are equal only if all three fields match.
#[derive(Clone, Copy, Debug, PartialEq, Eq, Structural)]
pub struct ObjectRef {
    pub id: u64,
    pub version: u64,
    pub digest: Digest,
}

/// A live, independently addressable object as the store knows it: its
/// current version, content fingerprint, owner, and runtime type.
#[derive(Clone, Copy, Debug, PartialEq, Eq, Structural)]
pub struct StoredObject {
    pub id: u64,
    pub version: u64,
    pub digest: u64,
    pub owner: Owner,
    pub type_tag: u64,
}

impl StoredObject {
    /// The caller-visible reference to this object.
    pub open spec fn spec_object_ref(self) -> ObjectRef {
        ObjectRef { id: self.id, version: self.version, digest: Digest::Live(self.digest) }
    }

    /// Computes the caller-visible reference to this object.
    pub fn object_ref(&self) -> (r: ObjectRef)
        ensures
            r == self.spec_object_ref(),
    {
        ObjectRef { id: self.id, version: self.version, digest: Digest::Live(self.digest) }
    }
}

/// No two of the given objects carry the same id.
pub open spec fn unique_ids(s: Seq<StoredObject>) -> bool {
    forall|j: int, k: int| 0 <= j < k < s.len() ==> s[j].id != s[k].id
}

/// The entry for `id` among the given objects, scanning from the most
/// recently added entry.
pub open spec fn lookup_seq(s: Seq<StoredObject>, id: u64) -> Option<StoredObject>
    decreases s.len(),
{
    if s.len() == 0 {
        None
    } else if s.last().id == id {
        Some(s.last())
    } else {
        lookup_seq(s.drop_last(), id)
    }
}

/// Table of the live objects visible to a transaction, indexed by id.
#[derive(Clone, Debug)]
pub struct ObjectTable {
    pub objects: Vec<StoredObject>,
}

impl ObjectTable {
    /// Ids are unique: an object is stored at most once.
    pub open spec fn wf(self) -> bool {
        unique_ids(self.objects@)
    }

    /// The entry for `id`, if the table holds one.
    pub open spec fn spec_lookup(self, id: u64) -> Option<StoredObject> {
        lookup_seq(self.objects@, id)
    }

    /// An empty table.
    pub fn new() -> (t: ObjectTable)
        ensures
            t.wf(),
            t.objects@.len() == 0,
    {
        ObjectTable { objects: Vec::new() }
    }

    /// Adds an object the table does not yet hold.
    pub fn add(&mut self, o: StoredObject)
        requires
            old(self).wf(),
            old(self).spec_lookup(o.id) is None,
        ensures
            final(self).wf(),
            final(self).objects@ == old(self).objects@.push(o),
            final(self).spec_lookup(o.id) == Some(o),
            forall|x: u64| x != o.id ==> final(self).spec_lookup(x) == old(self).spec_lookup(x),
    {
        proof {
            lemma_lookup_none_no_id(old(self).objects@, o.id);
        }
        self.objects.push(o);
        proof {
            assert(self.objects@.drop_last() =~= old(self).objects@);
            assert forall|x: u64| x != o.id implies
                self.spec_lookup(x) == old(self).spec_lookup(x) by {
                assert(self.objects@.drop_last() =~= old(self).objects@);
            }
            assert forall|j: int, k: int| 0 <= j < k < self.objects@.len() implies
                self.objects@[j].id != self.objects@[k].id by {
                if k == self.objects@.len() - 1 {
                    lemma_no_id_lookup_none(old(self).objects@, o.id, j);
                }
            }
        }
    }

    /// Finds the entry for `id`.
    pub fn lookup(&self, id: u64) -> (r: Option<StoredObject>)
        ensures
            r == self.spec_lookup(id),
    {
        let mut i: usize = self.objects.len();
        proof {
            assert(self.objects@.take(self.objects@.len() as int) =~= self.objects@);
        }
        while i > 0
            invariant
                i <= self.objects.len(),
                lookup_seq(self.objects@, id) == lookup_seq(self.objects@.take(i as int), id),
            decreases i,
        {
            i = i - 1;
            proof {
                assert(self.objects@.take(i + 1).drop_last() =~= self.objects@.take(i as int));
                assert(self.objects@.take(i + 1).last() == self.objects@[i as int]);
            }
            if self.objects[i].id == id {
                return Some(self.objects[i]);
            }
        }
        None
    }

    /// Resolves the latest caller-visible reference for `id`: the current
    /// ref of a live object, or a distinct not-found error.  Wrapped and
    /// deleted objects are not independently addressable, so they resolve
    /// to not-found.
    pub fn latest_ref(&self, id: u64) -> (r: Result<ObjectRef, UserInputError>)
        ensures
            self.spec_lookup(id) matches Some(o) ==> r == Ok::<ObjectRef, UserInputError>(o.spec_object_ref()),
            self.spec_lookup(id) is None ==> r == Err::<ObjectRef, UserInputError>(
                UserInputError::ObjectNotFound { object_id: id }),
    {
        match self.lookup(id) {
            Some(o) => Ok(o.object_ref()),
            None => Err(UserInputError::ObjectNotFound { object_id: id }),
        }
    }

    /// Removes the entry for `id` if the table holds one.
    pub fn remove(&mut self, id: u64)
        requires
            old(self).wf(),
        ensures
            final(self).wf(),
            final(self).spec_lookup(id) is None,
            forall|x: u64| x != id ==> final(self).spec_lookup(x) == old(self).spec_lookup(x),
    {
        let mut kept: Vec<StoredObject> = Vec::new();
        let mut i: usize = 0;
        while i < self.objects.len()
            invariant
                i <= self.objects@.len(),
                unique_ids(self.objects@),
                unique_ids(kept@),
                lookup_seq(kept@, id) is None,
                forall|x: u64| x != id ==> lookup_seq(kept@, x)
                    == lookup_seq(self.objects@.take(i as int), x),
            decreases self.objects@.len() - i,
        {
            let ghost pre = self.objects@.take(i as int);
            let ghost cur = self.objects@.take(i + 1);
            proof {
                assert(cur.drop_last() =~= pre);
                assert(cur.last() == self.objects@[i as int]);
            }
            if self.objects[i].id != id {
                let o = self.objects[i];
                proof {
                    lemma_absent_id_lookup_none(pre, o.id, i as int, self.objects@);
                    lemma_lookup_none_no_id(kept@, o.id);
                }
                let ghost kept_pre = kept@;
                kept.push(o);
                proof {
                    assert(kept@.drop_last() =~= kept_pre);
                    assert(kept@.last() == o);
                    assert forall|x: u64| x != id implies lookup_seq(kept@, x)
                        == lookup_seq(cur, x) by {
                        assert(kept@.drop_last() =~= kept_pre);
                        if x == o.id {
                            assert(lookup_seq(kept@, x) == Some(o));
                            assert(lookup_seq(cur, x) == Some(o));
                        } else {
                            assert(lookup_seq(kept@, x) == lookup_seq(kept_pre, x));
                            assert(lookup_seq(cur, x) == lookup_seq(pre, x));
                        }
                    }
                }
            }
            i = i + 1;
        }
        proof {
            assert(self.objects@.take(self.objects@.len() as int) =~= self.objects@);
        }
        self.objects = kept;
    }
}

/// In a run of id-unique objects, the id of the entry at position `i`
/// does not resolve among the entries before it.
pub proof fn lemma_absent_id_lookup_none(
    prefix: Seq<StoredObject>,
    id: u64,
    i: int,
    s: Seq<StoredObject>,
)
    requires
        unique_ids(s),
        0 <= i < s.len(),
        prefix == s.take(i),
        s[i].id == id,
    ensures
        lookup_seq(prefix, id) is None,
    decreases prefix.len(),
{
    if prefix.len() > 0 {
        assert(prefix.last() == s[prefix.len() - 1]) by {
            assert(prefix[prefix.len() - 1] == s[prefix.len() - 1]);
        }
        assert(prefix.last().id != id);
        lemma_absent_prefix_lookup_none(prefix.drop_last(), id);
    }
}

/// Helper for the lemma above: a run in which `id` does not occur fails
/// to resolve `id`.
proof fn lemma_absent_prefix_lookup_none(prefix: Seq<StoredObject>, id: u64)
    requires
        forall|j: int| 0 <= j < prefix.len() ==> prefix[j].id != id,
    ensures
        lookup_seq(prefix, id) is None,
    decreases prefix.len(),
{
    if prefix.len() > 0 {
        lemma_absent_prefix_lookup_none(prefix.drop_last(), id);
    }
}

/// If a lookup misses, no entry carries that id.
pub proof fn lemma_lookup_none_no_id(s: Seq<StoredObject>, id: u64)
    requires
        lookup_seq(s, id) is None,
    ensures
        forall|j: int| 0 <= j < s.len() ==> s[j].id != id,
    decreases s.len(),
{
    if s.len() > 0 {
        lemma_lookup_none_no_id(s.drop_last(), id);
        assert forall|j: int| 0 <= j < s.len() implies s[j].id != id by {
            if j < s.len() - 1 {
                assert(s.drop_last()[j] == s[j]);
            }
        }
    }
}

/// Pointwise form of the lemma above: a missed lookup means the entry
/// at `j` carries another id.
pub proof fn lemma_no_id_lookup_none(s: Seq<StoredObject>, id: u64, j: int)
    requires
        lookup_seq(s, id) is None,
        0 <= j < s.len(),
    ensures
        s[j].id != id,
{
    lemma_lookup_none_no_id(s, id);
}

} // verus!
