use effects_core::effects::{build_effects, ExecutionOutcome, PreObject, PriorState, WriteOp};
use effects_core::errors::{ExecutionStatus, UserInputError};
use effects_core::model::{Digest, ObjectRef, ObjectTable, Owner, StoredObject};
use effects_core::version::lamport_increment;

fn live(id: u64, version: u64) -> PreObject {
    PreObject { id, prior: PriorState::Live { version } }
}

fn embedded(id: u64) -> PreObject {
    PreObject { id, prior: PriorState::Embedded }
}

fn write(id: u64, owner: Owner, content: u64) -> WriteOp {
    WriteOp { id, owner, content }
}

fn stored(id: u64, version: u64, owner: Owner, type_tag: u64) -> StoredObject {
    StoredObject { id, version, digest: version, owner, type_tag }
}

const SENDER: u64 = 0xA11CE;
const GAS: u64 = 1;

#[test]
fn test_object_wrapping_unwrapping() {
    let child: u64 = 10;
    let parent: u64 = 11;
    let gas_version: u64 = 5;

    // Create a child object.
    let create_child_version = lamport_increment(&vec![gas_version]);
    let effects = build_effects(
        &vec![live(GAS, gas_version)],
        &ExecutionOutcome {
            writes: vec![
                write(GAS, Owner::AddressOwner(SENDER), 100),
                write(child, Owner::AddressOwner(SENDER), 101),
            ],
            deletes: vec![],
            wraps: vec![],
        },
        GAS,
        ExecutionStatus::Success,
    );
    assert!(effects.status().is_ok());
    let child_ref = effects.created()[0].0;
    assert_eq!(child_ref.version, create_child_version);

    // Create a parent object, wrapping the child into it.
    let wrapped_version =
        lamport_increment(&vec![child_ref.version, effects.gas_object().0.version]);
    let effects = build_effects(
        &vec![live(GAS, create_child_version), live(child, create_child_version)],
        &ExecutionOutcome {
            writes: vec![
                write(GAS, Owner::AddressOwner(SENDER), 102),
                write(parent, Owner::AddressOwner(SENDER), 103),
            ],
            deletes: vec![],
            wraps: vec![child],
        },
        GAS,
        ExecutionStatus::Success,
    );
    assert!(effects.status().is_ok());
    // Child object is wrapped, parent object is created.
    assert_eq!(
        (
            effects.created().len(),
            effects.deleted().len(),
            effects.unwrapped_then_deleted().len(),
            effects.wrapped().len()
        ),
        (1, 0, 0, 1)
    );
    let expected_child_ref =
        ObjectRef { id: child, version: wrapped_version, digest: Digest::Wrapped };
    assert_eq!(effects.wrapped()[0], expected_child_ref);
    let parent_ref = effects.created()[0].0;
    assert_eq!(parent_ref.version, wrapped_version);

    // A wrapped object is no longer independently addressable.
    let mut table = ObjectTable::new();
    table.add(stored(GAS, wrapped_version, Owner::AddressOwner(SENDER), 0));
    table.add(stored(parent, wrapped_version, Owner::AddressOwner(SENDER), 7));
    assert_eq!(
        table.latest_ref(child),
        Err(UserInputError::ObjectNotFound { object_id: child })
    );

    // Extract the child out of the parent.
    let unwrapped_version =
        lamport_increment(&vec![parent_ref.version, wrapped_version]);
    let effects = build_effects(
        &vec![live(GAS, wrapped_version), live(parent, wrapped_version), embedded(child)],
        &ExecutionOutcome {
            writes: vec![
                write(GAS, Owner::AddressOwner(SENDER), 104),
                write(parent, Owner::AddressOwner(SENDER), 105),
                write(child, Owner::AddressOwner(SENDER), 106),
            ],
            deletes: vec![],
            wraps: vec![],
        },
        GAS,
        ExecutionStatus::Success,
    );
    assert!(effects.status().is_ok());
    // The child shows up in unwrapped, not created; mutated holds parent and gas.
    assert_eq!(
        (effects.mutated().len(), effects.created().len(), effects.unwrapped().len()),
        (2, 0, 1)
    );
    assert_eq!(effects.unwrapped()[0].0.version, unwrapped_version);
    let child_ref = effects.unwrapped()[0].0;

    // Wrap the child into the parent again.
    let rewrap_version = lamport_increment(&vec![
        unwrapped_version,
        child_ref.version,
        unwrapped_version,
    ]);
    let effects = build_effects(
        &vec![
            live(GAS, unwrapped_version),
            live(parent, unwrapped_version),
            live(child, unwrapped_version),
        ],
        &ExecutionOutcome {
            writes: vec![
                write(GAS, Owner::AddressOwner(SENDER), 107),
                write(parent, Owner::AddressOwner(SENDER), 108),
            ],
            deletes: vec![],
            wraps: vec![child],
        },
        GAS,
        ExecutionStatus::Success,
    );
    assert!(effects.status().is_ok());
    assert_eq!((effects.mutated().len(), effects.wrapped().len()), (2, 1));
    let expected_child_ref =
        ObjectRef { id: child, version: rewrap_version, digest: Digest::Wrapped };
    assert_eq!(effects.wrapped()[0], expected_child_ref);
    let parent_ref = effects.mutated_excluding_gas()[0].0;
    assert_eq!(parent_ref.id, parent);

    // Delete the parent, which deletes the wrapped child with it.
    let deleted_version = lamport_increment(&vec![parent_ref.version, rewrap_version]);
    let effects = build_effects(
        &vec![live(GAS, rewrap_version), live(parent, rewrap_version), embedded(child)],
        &ExecutionOutcome {
            writes: vec![write(GAS, Owner::AddressOwner(SENDER), 109)],
            deletes: vec![parent, child],
            wraps: vec![],
        },
        GAS,
        ExecutionStatus::Success,
    );
    assert!(effects.status().is_ok());
    assert_eq!(effects.deleted().len(), 1);
    assert_eq!(effects.unwrapped_then_deleted().len(), 1);
    let expected_child_ref =
        ObjectRef { id: child, version: deleted_version, digest: Digest::Deleted };
    assert!(effects.unwrapped_then_deleted().contains(&expected_child_ref));
    let expected_parent_ref =
        ObjectRef { id: parent, version: deleted_version, digest: Digest::Deleted };
    assert!(effects.deleted().contains(&expected_parent_ref));
}

#[test]
fn test_create_then_delete_parent_child() {
    let parent: u64 = 20;
    let field: u64 = 21;
    let child: u64 = 22;

    // Create a parent and a child together: parent, field, and child.
    let effects = build_effects(
        &vec![live(GAS, 1)],
        &ExecutionOutcome {
            writes: vec![
                write(GAS, Owner::AddressOwner(SENDER), 110),
                write(parent, Owner::AddressOwner(SENDER), 111),
                write(field, Owner::ObjectOwner(parent), 112),
                write(child, Owner::ObjectOwner(field), 113),
            ],
            deletes: vec![],
            wraps: vec![],
        },
        GAS,
        ExecutionStatus::Success,
    );
    assert!(effects.status().is_ok());
    assert_eq!(effects.created().len(), 3);
    let v = effects.created()[0].0.version;

    // Delete the parent and child altogether: the cascade over the
    // ownership links finds the field and the child.
    let mut table = ObjectTable::new();
    table.add(stored(GAS, v, Owner::AddressOwner(SENDER), 0));
    table.add(stored(parent, v, Owner::AddressOwner(SENDER), 7));
    table.add(stored(field, v, Owner::ObjectOwner(parent), 7));
    table.add(stored(child, v, Owner::ObjectOwner(field), 7));
    let mut deletes = vec![parent];
    deletes.extend(effects_core::ownership::owned_descendants(&table, parent));
    let effects = build_effects(
        &vec![live(GAS, v), live(parent, v), live(field, v), live(child, v)],
        &ExecutionOutcome {
            writes: vec![write(GAS, Owner::AddressOwner(SENDER), 114)],
            deletes,
            wraps: vec![],
        },
        GAS,
        ExecutionStatus::Success,
    );
    assert!(effects.status().is_ok());
    assert_eq!(effects.deleted().len(), 3);
}

#[test]
fn test_create_then_delete_parent_child_wrap() {
    let parent: u64 = 30;
    let field: u64 = 31;

    // Create a parent with its child already wrapped inside: the child is
    // never independently created, so only the parent and field surface.
    let effects = build_effects(
        &vec![live(GAS, 1)],
        &ExecutionOutcome {
            writes: vec![
                write(GAS, Owner::AddressOwner(SENDER), 120),
                write(parent, Owner::AddressOwner(SENDER), 121),
                write(field, Owner::ObjectOwner(parent), 122),
            ],
            deletes: vec![],
            wraps: vec![],
        },
        GAS,
        ExecutionStatus::Success,
    );
    assert!(effects.status().is_ok());
    assert_eq!(effects.mutated().len(), 1);
    assert_eq!(effects.created().len(), 2);
    // Not wrapped, as it was never first created.
    assert_eq!(effects.wrapped().len(), 0);

    let gas_ref = effects.mutated()[0].0;
    let parent_ref = effects.created()[0].0;
    let field_ref = effects.created()[1].0;

    // Delete the parent and child altogether.  The parent and field are
    // deleted; the never-created child does not count.
    let effects = build_effects(
        &vec![
            live(GAS, gas_ref.version),
            live(parent, parent_ref.version),
            live(field, field_ref.version),
        ],
        &ExecutionOutcome {
            writes: vec![write(GAS, Owner::AddressOwner(SENDER), 123)],
            deletes: vec![parent, field],
            wraps: vec![],
        },
        GAS,
        ExecutionStatus::Success,
    );
    assert!(effects.status().is_ok());
    assert_eq!(effects.deleted().len(), 2);
    // The child was never created, so it is not unwrapped-then-deleted.
    assert_eq!(effects.unwrapped_then_deleted().len(), 0);

    let mut modified: Vec<(u64, u64)> = effects.modified_at_versions().clone();
    modified.sort();
    let mut expected = vec![
        (GAS, gas_ref.version),
        (parent, parent_ref.version),
        (field, field_ref.version),
    ];
    expected.sort();
    assert_eq!(modified, expected);
}

#[test]
fn test_create_then_delete_parent_child_wrap_separate() {
    let parent: u64 = 40;
    let field: u64 = 41;
    let child: u64 = 42;

    // Create a parent.
    let effects = build_effects(
        &vec![live(GAS, 1)],
        &ExecutionOutcome {
            writes: vec![
                write(GAS, Owner::AddressOwner(SENDER), 130),
                write(parent, Owner::AddressOwner(SENDER), 131),
            ],
            deletes: vec![],
            wraps: vec![],
        },
        GAS,
        ExecutionStatus::Success,
    );
    assert!(effects.status().is_ok());
    let v1 = effects.created()[0].0.version;

    // Create a child.
    let effects = build_effects(
        &vec![live(GAS, v1)],
        &ExecutionOutcome {
            writes: vec![
                write(GAS, Owner::AddressOwner(SENDER), 132),
                write(child, Owner::AddressOwner(SENDER), 133),
            ],
            deletes: vec![],
            wraps: vec![],
        },
        GAS,
        ExecutionStatus::Success,
    );
    assert!(effects.status().is_ok());
    let v2 = effects.created()[0].0.version;

    // Add the child to the parent, wrapping it.
    let effects = build_effects(
        &vec![live(GAS, v2), live(parent, v1), live(child, v2)],
        &ExecutionOutcome {
            writes: vec![
                write(GAS, Owner::AddressOwner(SENDER), 134),
                write(field, Owner::ObjectOwner(parent), 135),
                write(parent, Owner::AddressOwner(SENDER), 136),
            ],
            deletes: vec![],
            wraps: vec![child],
        },
        GAS,
        ExecutionStatus::Success,
    );
    assert!(effects.status().is_ok());
    assert_eq!(effects.created().len(), 1);
    assert_eq!(effects.wrapped().len(), 1);
    let v3 = effects.wrapped()[0].version;

    // Delete the parent; the wrapped child surfaces only to be deleted.
    let effects = build_effects(
        &vec![live(GAS, v3), live(parent, v3), live(field, v3), embedded(child)],
        &ExecutionOutcome {
            writes: vec![write(GAS, Owner::AddressOwner(SENDER), 137)],
            deletes: vec![parent, field, child],
            wraps: vec![],
        },
        GAS,
        ExecutionStatus::Success,
    );
    assert!(effects.status().is_ok());
    assert_eq!(effects.deleted().len(), 2);
    assert_eq!(effects.unwrapped_then_deleted().len(), 1);
}

#[test]
fn lamport_version_is_one_past_the_maximum() {
    assert_eq!(lamport_increment(&vec![]), 1);
    assert_eq!(lamport_increment(&vec![3]), 4);
    assert_eq!(lamport_increment(&vec![7, 3, 5]), 8);
    assert_eq!(lamport_increment(&vec![5, 7, 3]), 8);
}

#[test]
fn every_written_object_gets_the_lamport_version() {
    let a: u64 = 50;
    let b: u64 = 51;
    let effects = build_effects(
        &vec![live(GAS, 9), live(a, 4), embedded(b)],
        &ExecutionOutcome {
            writes: vec![
                write(GAS, Owner::AddressOwner(SENDER), 140),
                write(a, Owner::AddressOwner(SENDER), 141),
                write(b, Owner::AddressOwner(SENDER), 142),
            ],
            deletes: vec![],
            wraps: vec![],
        },
        GAS,
        ExecutionStatus::Success,
    );
    assert_eq!(effects.lamport_version, 10);
    for (r, _) in effects.mutated().iter() {
        assert_eq!(r.version, 10);
    }
    for (r, _) in effects.unwrapped().iter() {
        assert_eq!(r.version, 10);
    }
    for (id, v) in effects.modified_at_versions().iter() {
        assert!(*v < 10, "pre-image version of {id} must be below the new version");
    }
}

#[test]
fn failed_execution_still_produces_a_record() {
    let effects = build_effects(
        &vec![live(GAS, 2)],
        &ExecutionOutcome {
            writes: vec![write(GAS, Owner::AddressOwner(SENDER), 150)],
            deletes: vec![],
            wraps: vec![],
        },
        GAS,
        ExecutionStatus::Failure {
            error: effects_core::errors::ExecutionFailure::VMVerificationOrDeserializationError,
            command: 0,
        },
    );
    assert!(!effects.status().is_ok());
    assert_eq!(effects.mutated().len(), 1);
    assert_eq!(effects.gas_object().0.version, 3);
    assert_eq!(effects.gas_object().0.digest, Digest::Live(150));
}
