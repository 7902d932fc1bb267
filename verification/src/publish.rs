//! Publication gate: validates a batch of modules being published and
//! assembles the published package.
//!
//! A publish must carry at least one non-empty module and no two modules
//! with identical serialized bytecode.  Every dependency that is not
//! itself published on chain must either carry an explicit published
//! address or be bundled into the same publish under the
//! unpublished-dependency override.  On success the publish creates an
//! immutable package object and an address-owned upgrade capability,
//! versioned by the transaction's logical clock like every other write.

use vstd::prelude::*;
use crate::effects::WriteOp;
use crate::errors::{ExecutionFailure, Rejection, UserInputError};
use crate::model::Owner;

verus! {

/// A package dependency as the publish command sees it: its name, its
/// on-chain published address if it has one, and its own modules, which
/// are bundled when the unpublished-dependency override is supplied.
#[derive(Clone, Debug)]
pub struct PackageDependency {
    pub name: u64,
    pub published_at: Option<u64>,
    pub modules: Vec<Vec<u8>>,
}

/// True when every module blob is empty.
pub open spec fn all_modules_empty(modules: Seq<Vec<u8>>) -> bool {
    forall|i: int| 0 <= i < modules.len() ==> (#[trigger] modules[i])@.len() == 0
}

/// True when some module blob is empty.
pub open spec fn some_module_empty(modules: Seq<Vec<u8>>) -> bool {
    exists|i: int| 0 <= i < modules.len() && (#[trigger] modules[i])@.len() == 0
}

/// True when two modules carry identical serialized bytecode.
pub open spec fn has_duplicate_module(modules: Seq<Vec<u8>>) -> bool {
    exists|i: int, j: int| 0 <= i < j < modules.len()
        && (#[trigger] modules[i])@ == (#[trigger] modules[j])@
}

/// The name of the first dependency without a published address.
pub open spec fn first_unpublished(deps: Seq<PackageDependency>) -> Option<u64>
    decreases deps.len(),
{
    if deps.len() == 0 {
        None
    } else if deps.first().published_at is None {
        Some(deps.first().name)
    } else {
        first_unpublished(deps.drop_first())
    }
}

/// The byte contents of each module blob, blob by blob.
pub open spec fn seq_views(s: Seq<Vec<u8>>) -> Seq<Seq<u8>> {
    Seq::new(s.len(), |i: int| s[i]@)
}

/// The module bytes of every dependency without a published address, in
/// order.
pub open spec fn unpublished_module_bytes(deps: Seq<PackageDependency>) -> Seq<Seq<u8>>
    decreases deps.len(),
{
    if deps.len() == 0 {
        Seq::empty()
    } else {
        unpublished_module_bytes(deps.drop_last()) + if deps.last().published_at is None {
            seq_views(deps.last().modules@)
        } else {
            Seq::empty()
        }
    }
}

/// The verdict on the module list alone: an empty list, or one holding
/// only empty blobs, is an empty command input; an empty blob among
/// non-empty ones, or duplicated bytecode, fails verification at the
/// publishing command.
pub open spec fn module_check(modules: Seq<Vec<u8>>, command: u64) -> Result<(), Rejection> {
    if modules.len() == 0 || all_modules_empty(modules) {
        Err(Rejection::Input(UserInputError::EmptyCommandInput))
    } else if some_module_empty(modules) || has_duplicate_module(modules) {
        Err(Rejection::Exec {
            command,
            failure: ExecutionFailure::VMVerificationOrDeserializationError,
        })
    } else {
        Ok(())
    }
}

/// How a publish at the given command index is judged: an empty module
/// list, or one holding only empty blobs, is an empty command input; an
/// empty blob among non-empty ones, or duplicated bytecode, fails
/// verification; a dependency without a published address fails
/// publication naming that dependency, unless the override is supplied.
pub open spec fn publish_verdict(
    modules: Seq<Vec<u8>>,
    deps: Seq<PackageDependency>,
    with_unpublished_deps: bool,
    command: u64,
) -> Option<Rejection> {
    if modules.len() == 0 || all_modules_empty(modules) {
        Some(Rejection::Input(UserInputError::EmptyCommandInput))
    } else if some_module_empty(modules) || has_duplicate_module(modules) {
        Some(Rejection::Exec {
            command,
            failure: ExecutionFailure::VMVerificationOrDeserializationError,
        })
    } else if !with_unpublished_deps && first_unpublished(deps) is Some {
        Some(Rejection::Publish(crate::errors::ModulePublishFailure {
            dependency: first_unpublished(deps)->Some_0,
        }))
    } else {
        None
    }
}

/// The module bytes a successful publish stores on chain: the package's
/// own modules, followed by those of each unpublished dependency when the
/// override bundles them.
pub open spec fn bundled_module_bytes(
    modules: Seq<Vec<u8>>,
    deps: Seq<PackageDependency>,
    with_unpublished_deps: bool,
) -> Seq<Seq<u8>> {
    if with_unpublished_deps {
        seq_views(modules) + unpublished_module_bytes(deps)
    } else {
        seq_views(modules)
    }
}

/// The two objects a successful publish creates: the immutable package
/// and the sender-owned upgrade capability, plus the stored module set.
#[derive(Debug)]
pub struct PublishOutcome {
    pub modules: Vec<Vec<u8>>,
    pub package_write: WriteOp,
    pub cap_write: WriteOp,
}

/// Copies one module blob.
fn copy_bytes(v: &Vec<u8>) -> (r: Vec<u8>)
    ensures
        r@ == v@,
{
    let mut r: Vec<u8> = Vec::new();
    let mut i: usize = 0;
    while i < v.len()
        invariant
            i <= v@.len(),
            r@ == v@.take(i as int),
        decreases v@.len() - i,
    {
        proof {
            assert(v@.take(i + 1).drop_last() =~= v@.take(i as int));
        }
        r.push(v[i]);
        i = i + 1;
    }
    proof {
        assert(v@.take(v@.len() as int) =~= v@);
    }
    r
}

/// Compares two module blobs by content.
fn bytes_eq(a: &Vec<u8>, b: &Vec<u8>) -> (r: bool)
    ensures
        r == (a@ == b@),
{
    if a.len() != b.len() {
        return false;
    }
    let mut i: usize = 0;
    while i < a.len()
        invariant
            i <= a@.len(),
            a@.len() == b@.len(),
            forall|j: int| 0 <= j < i ==> a@[j] == b@[j],
        decreases a@.len() - i,
    {
        if a[i] != b[i] {
            return false;
        }
        i = i + 1;
    }
    proof {
        assert(a@ =~= b@);
    }
    true
}

/// Rejects an empty or all-empty module list as an empty command input,
/// and an empty blob or duplicated bytecode as a verification failure at
/// the publishing command.
pub fn check_publish_modules(modules: &Vec<Vec<u8>>, command: u64) -> (r: Result<(), Rejection>)
    ensures
        r == module_check(modules@, command),
{
    let mut any_empty: bool = false;
    let mut all_empty: bool = true;
    let mut i: usize = 0;
    while i < modules.len()
        invariant
            i <= modules@.len(),
            any_empty == exists|j: int| 0 <= j < i && (#[trigger] modules@[j])@.len() == 0,
            all_empty == forall|j: int| 0 <= j < i ==> (#[trigger] modules@[j])@.len() == 0,
        decreases modules@.len() - i,
    {
        if modules[i].len() == 0 {
            any_empty = true;
        } else {
            all_empty = false;
        }
        i = i + 1;
    }
    if modules.len() == 0 || all_empty {
        return Err(Rejection::Input(UserInputError::EmptyCommandInput));
    }
    if any_empty {
        return Err(Rejection::Exec {
            command,
            failure: ExecutionFailure::VMVerificationOrDeserializationError,
        });
    }
    let mut i: usize = 0;
    while i < modules.len()
        invariant
            i <= modules@.len(),
            modules@.len() > 0,
            !all_modules_empty(modules@),
            !some_module_empty(modules@),
            forall|a: int, b: int| 0 <= a < b < i ==> (#[trigger] modules@[a])@ != (#[trigger] modules@[b])@,
        decreases modules@.len() - i,
    {
        let mut j: usize = 0;
        while j < i
            invariant
                j <= i < modules@.len(),
                modules@.len() > 0,
                !all_modules_empty(modules@),
                !some_module_empty(modules@),
                forall|a: int, b: int| 0 <= a < b < i
                    ==> (#[trigger] modules@[a])@ != (#[trigger] modules@[b])@,
                forall|a: int| 0 <= a < j ==> (#[trigger] modules@[a])@ != modules@[i as int]@,
            decreases i - j,
        {
            if bytes_eq(&modules[j], &modules[i]) {
                proof {
                    assert(0 <= j < i < modules@.len()
                        && (modules@[j as int])@ == (modules@[i as int])@);
                    assert(has_duplicate_module(modules@));
                }
                return Err(Rejection::Exec {
                    command,
                    failure: ExecutionFailure::VMVerificationOrDeserializationError,
                });
            }
            j = j + 1;
        }
        i = i + 1;
    }
    Ok(())
}

/// Finds the first dependency without a published address.
pub fn find_unpublished(deps: &Vec<PackageDependency>) -> (r: Option<u64>)
    ensures
        r == first_unpublished(deps@),
{
    let mut i: usize = 0;
    proof {
        assert(deps@.skip(0) =~= deps@);
    }
    while i < deps.len()
        invariant
            i <= deps@.len(),
            first_unpublished(deps@) == first_unpublished(deps@.skip(i as int)),
        decreases deps@.len() - i,
    {
        proof {
            assert(deps@.skip(i as int).first() == deps@[i as int]);
            assert(deps@.skip(i as int).drop_first() =~= deps@.skip(i + 1));
        }
        if deps[i].published_at.is_none() {
            return Some(deps[i].name);
        }
        i = i + 1;
    }
    None
}

/// Requires every dependency that is not being published in the same
/// transaction to carry an explicit on-chain published address; a
/// violation names the offending dependency.
pub fn check_unpublished_dependencies(
    deps: &Vec<PackageDependency>,
) -> (r: Result<(), crate::errors::ModulePublishFailure>)
    ensures
        first_unpublished(deps@) matches Some(n)
            ==> r == Err::<(), crate::errors::ModulePublishFailure>(
                crate::errors::ModulePublishFailure { dependency: n }),
        first_unpublished(deps@) is None ==> r == Ok::<(), crate::errors::ModulePublishFailure>(()),
{
    match find_unpublished(deps) {
        Some(n) => Err(crate::errors::ModulePublishFailure { dependency: n }),
        None => Ok(()),
    }
}

/// Runs the publication gate and, on success, assembles the stored module
/// set and the two created objects: the immutable package and the
/// sender-owned upgrade capability.
pub fn prepare_publish(
    modules: &Vec<Vec<u8>>,
    deps: &Vec<PackageDependency>,
    with_unpublished_deps: bool,
    sender: u64,
    package_id: u64,
    cap_id: u64,
    package_content: u64,
    cap_content: u64,
    command: u64,
) -> (r: Result<PublishOutcome, Rejection>)
    ensures
        publish_verdict(modules@, deps@, with_unpublished_deps, command) matches Some(rej)
            ==> r matches Err(e) && e == rej,
        publish_verdict(modules@, deps@, with_unpublished_deps, command) is None ==> {
            &&& r matches Ok(out)
            &&& seq_views(out.modules@) == bundled_module_bytes(modules@, deps@, with_unpublished_deps)
            &&& out.package_write == (WriteOp {
                id: package_id,
                owner: Owner::Immutable,
                content: package_content,
            })
            &&& out.cap_write == (WriteOp {
                id: cap_id,
                owner: Owner::AddressOwner(sender),
                content: cap_content,
            })
        },
{
    let checked = check_publish_modules(modules, command);
    match checked {
        Err(rej) => {
            return Err(rej);
        },
        Ok(()) => {},
    }
    if !with_unpublished_deps {
        match find_unpublished(deps) {
            Some(n) => {
                return Err(Rejection::Publish(crate::errors::ModulePublishFailure {
                    dependency: n,
                }));
            },
            None => {},
        }
    }
    let mut stored: Vec<Vec<u8>> = Vec::new();
    let mut i: usize = 0;
    while i < modules.len()
        invariant
            i <= modules@.len(),
            stored@.len() == i,
            forall|j: int| 0 <= j < i ==> (#[trigger] stored@[j])@ == modules@[j]@,
        decreases modules@.len() - i,
    {
        let m = copy_bytes(&modules[i]);
        stored.push(m);
        i = i + 1;
    }
    proof {
        assert(seq_views(stored@) =~= seq_views(modules@));
    }
    if with_unpublished_deps {
        let mut d: usize = 0;
        while d < deps.len()
            invariant
                d <= deps@.len(),
                seq_views(stored@) =~= seq_views(modules@) + unpublished_module_bytes(deps@.take(d as int)),
            decreases deps@.len() - d,
        {
            proof {
                assert(deps@.take(d + 1).drop_last() =~= deps@.take(d as int));
                assert(deps@.take(d + 1).last() == deps@[d as int]);
            }
            if deps[d].published_at.is_some() {
                proof {
                    assert(unpublished_module_bytes(deps@.take(d + 1))
                        =~= unpublished_module_bytes(deps@.take(d as int)));
                }
            } else {
                let dep_modules = &deps[d].modules;
                let mut k: usize = 0;
                let ghost base = stored@;
                while k < dep_modules.len()
                    invariant
                        k <= dep_modules@.len(),
                        stored@.len() == base.len() + k,
                        stored@.take(base.len() as int) =~= base,
                        forall|j: int| 0 <= j < k
                            ==> (#[trigger] stored@[base.len() + j])@ == dep_modules@[j]@,
                    decreases dep_modules@.len() - k,
                {
                    let m = copy_bytes(&dep_modules[k]);
                    proof {
                        assert(stored@.push(m).take(base.len() as int) =~= stored@.take(base.len() as int));
                    }
                    stored.push(m);
                    k = k + 1;
                }
                proof {
                    assert forall|x: int| 0 <= x < base.len() implies stored@[x] == base[x] by {
                        assert(stored@.take(base.len() as int)[x] == stored@[x]);
                    }
                    assert forall|x: int| base.len() <= x < stored@.len() implies
                        stored@[x]@ == dep_modules@[x - base.len()]@ by {
                        let j = x - base.len();
                        assert(stored@[base.len() + j]@ == dep_modules@[j]@);
                    }
                    assert(seq_views(stored@) =~= seq_views(base) + seq_views(dep_modules@));
                    assert(unpublished_module_bytes(deps@.take(d + 1))
                        =~= unpublished_module_bytes(deps@.take(d as int))
                            + seq_views(dep_modules@));
                    assert(seq_views(stored@)
                        =~= seq_views(modules@) + unpublished_module_bytes(deps@.take(d + 1)));
                }
            }
            d = d + 1;
        }
        proof {
            assert(deps@.take(deps@.len() as int) =~= deps@);
        }
    }
    Ok(PublishOutcome {
        modules: stored,
        package_write: WriteOp { id: package_id, owner: Owner::Immutable, content: package_content },
        cap_write: WriteOp { id: cap_id, owner: Owner::AddressOwner(sender), content: cap_content },
    })
}

/// The blobs of `part` occur contiguously, by content, at offset `off`
/// of `whole`.
pub open spec fn segment_at(whole: Seq<Seq<u8>>, part: Seq<Vec<u8>>, off: int) -> bool {
    &&& 0 <= off
    &&& off + part.len() <= whole.len()
    &&& forall|k: int| 0 <= k < part.len() ==> whole[off + k] == (#[trigger] part[k])@
}

/// The modules of every dependency without a published address occur as
/// a contiguous segment of the bundled unpublished modules.
pub proof fn lemma_unpublished_segment(deps: Seq<PackageDependency>, i: int)
    requires
        0 <= i < deps.len(),
        deps[i].published_at is None,
    ensures
        exists|off: int| segment_at(unpublished_module_bytes(deps), deps[i].modules@, off),
    decreases deps.len(),
{
    if i == deps.len() - 1 {
        let off = unpublished_module_bytes(deps.drop_last()).len() as int;
        assert(segment_at(unpublished_module_bytes(deps), deps[i].modules@, off)) by {
            assert forall|k: int| 0 <= k < deps[i].modules@.len() implies
                unpublished_module_bytes(deps)[off + k] == (#[trigger] deps[i].modules@[k])@ by {
                assert(unpublished_module_bytes(deps)[off + k]
                    == seq_views(deps.last().modules@)[k]);
            }
        }
    } else {
        assert(deps.drop_last()[i] == deps[i]);
        lemma_unpublished_segment(deps.drop_last(), i);
        let off = choose|off: int|
            segment_at(unpublished_module_bytes(deps.drop_last()), deps.drop_last()[i].modules@, off);
        assert(segment_at(unpublished_module_bytes(deps), deps[i].modules@, off)) by {
            assert forall|k: int| 0 <= k < deps[i].modules@.len() implies
                unpublished_module_bytes(deps)[off + k] == (#[trigger] deps[i].modules@[k])@ by {
                assert(unpublished_module_bytes(deps.drop_last())[off + k]
                    == deps.drop_last()[i].modules@[k]@);
            }
        }
    }
}

/// The unpublished-dependency gate.  A publish whose dependency lacks a
/// published address fails with a publication failure naming the first
/// such dependency.  The identical publish with the override supplied
/// succeeds, and its stored module set bundles the modules of every
/// unpublished dependency.
pub proof fn lemma_unpublished_dependency_gate(
    modules: Seq<Vec<u8>>,
    deps: Seq<PackageDependency>,
    command: u64,
    i: int,
)
    requires
        module_check(modules, command) is Ok,
        0 <= i < deps.len(),
        deps[i].published_at is None,
    ensures
        publish_verdict(modules, deps, false, command)
            == Some(Rejection::Publish(crate::errors::ModulePublishFailure {
                dependency: first_unpublished(deps)->Some_0,
            })),
        publish_verdict(modules, deps, true, command) is None,
        exists|off: int| segment_at(bundled_module_bytes(modules, deps, true), deps[i].modules@, off),
    decreases deps.len(),
{
    lemma_some_unpublished(deps, i);
    lemma_unpublished_segment(deps, i);
    let off = choose|off: int| segment_at(unpublished_module_bytes(deps), deps[i].modules@, off);
    let shifted = seq_views(modules).len() + off;
    assert(segment_at(bundled_module_bytes(modules, deps, true), deps[i].modules@, shifted)) by {
        assert forall|k: int| 0 <= k < deps[i].modules@.len() implies
            bundled_module_bytes(modules, deps, true)[shifted + k]
                == (#[trigger] deps[i].modules@[k])@ by {
            assert(unpublished_module_bytes(deps)[off + k] == deps[i].modules@[k]@);
        }
    }
}

/// A dependency without a published address guarantees the scan reports
/// one.
proof fn lemma_some_unpublished(deps: Seq<PackageDependency>, i: int)
    requires
        0 <= i < deps.len(),
        deps[i].published_at is None,
    ensures
        first_unpublished(deps) is Some,
    decreases deps.len(),
{
    if deps.first().published_at is Some {
        assert(deps.drop_first()[i - 1] == deps[i]);
        lemma_some_unpublished(deps.drop_first(), i - 1);
    }
}

} // verus!
