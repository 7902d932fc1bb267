use effects_core::encoding::{PureLayout, StrKind};
use effects_core::errors::{
    CommandArgumentError, ExecutionFailure, Rejection, UserInputError,
};
use effects_core::model::{Digest, ObjectRef, ObjectTable, Owner, StoredObject};
use effects_core::ownership::{authenticate, check_owner_transition, owned_descendants};
use effects_core::validate::{validate_transaction, CallArg, MoveCall, Transaction};

const SENDER: u64 = 0xA11CE;
const OTHER: u64 = 0xB0B;
const COIN_TYPE: u64 = 7;
const OTHER_TYPE: u64 = 8;

fn stored(id: u64, version: u64, owner: Owner, type_tag: u64) -> StoredObject {
    StoredObject { id, version, digest: version, owner, type_tag }
}

fn one_call(args: Vec<CallArg>) -> Transaction {
    Transaction { commands: vec![MoveCall { args }] }
}

#[test]
fn test_object_owning_another_object() {
    let parent: u64 = 60;
    let child: u64 = 61;
    let field: u64 = 62;
    let new_parent: u64 = 63;

    let mut table = ObjectTable::new();
    table.add(stored(parent, 2, Owner::AddressOwner(SENDER), COIN_TYPE));
    table.add(stored(new_parent, 2, Owner::AddressOwner(SENDER), COIN_TYPE));

    // Mutating the child directly works while the sender owns it.
    table.add(stored(child, 2, Owner::AddressOwner(SENDER), COIN_TYPE));
    assert_eq!(authenticate(&table, &vec![child], child, SENDER), Ok(()));

    // Add the child to the parent: it is now owned through a field object.
    table.remove(child);
    table.add(stored(field, 3, Owner::ObjectOwner(parent), COIN_TYPE));
    table.add(stored(child, 3, Owner::ObjectOwner(field), COIN_TYPE));

    // Mutating the child directly now fails: the parent chain must
    // authenticate it, and the chain error is distinct from a plain
    // authorization failure.
    assert_eq!(
        authenticate(&table, &vec![child], child, SENDER),
        Err(UserInputError::InvalidChildObjectArgument { child_id: child, parent_id: field })
    );

    // Passing the child with the parent, but not the field that links
    // them, still fails with the chain error.
    assert_eq!(
        authenticate(&table, &vec![child, parent], child, SENDER),
        Err(UserInputError::InvalidChildObjectArgument { child_id: child, parent_id: field })
    );

    // With the whole chain present, authority resolves through the
    // parent's address owner.
    assert_eq!(authenticate(&table, &vec![child, field, parent], child, SENDER), Ok(()));
    assert_eq!(
        authenticate(&table, &vec![child, field, parent], child, OTHER),
        Err(UserInputError::NotSignedByOwner { object_id: parent, owner_address: SENDER })
    );

    // Transfer the child to the new parent: it now authenticates through
    // the new parent's chain, and no longer through the old one.
    let new_field: u64 = 64;
    table.remove(field);
    table.remove(child);
    table.add(stored(new_field, 4, Owner::ObjectOwner(new_parent), COIN_TYPE));
    table.add(stored(child, 4, Owner::ObjectOwner(new_field), COIN_TYPE));
    assert_eq!(
        authenticate(&table, &vec![child, new_field, new_parent], child, SENDER),
        Ok(())
    );
    assert_eq!(
        authenticate(&table, &vec![child, field, parent], child, SENDER),
        Err(UserInputError::InvalidChildObjectArgument { child_id: child, parent_id: new_field })
    );
}

#[test]
fn authenticate_rejects_shared_immutable_and_missing() {
    let shared: u64 = 70;
    let frozen: u64 = 71;
    let missing: u64 = 72;

    let mut table = ObjectTable::new();
    table.add(stored(shared, 4, Owner::Shared { initial_shared_version: 4 }, COIN_TYPE));
    table.add(stored(frozen, 4, Owner::Immutable, COIN_TYPE));

    assert_eq!(
        authenticate(&table, &vec![shared], shared, SENDER),
        Err(UserInputError::SharedObjectAsSingleOwnerInput { object_id: shared })
    );
    assert_eq!(
        authenticate(&table, &vec![frozen], frozen, SENDER),
        Err(UserInputError::MutationOfImmutableObject { object_id: frozen })
    );
    assert_eq!(
        authenticate(&table, &vec![missing], missing, SENDER),
        Err(UserInputError::ObjectNotFound { object_id: missing })
    );
}

#[test]
fn authenticate_cuts_off_cyclic_ownership() {
    let a: u64 = 75;
    let b: u64 = 76;
    let mut table = ObjectTable::new();
    table.add(stored(a, 1, Owner::ObjectOwner(b), COIN_TYPE));
    table.add(stored(b, 1, Owner::ObjectOwner(a), COIN_TYPE));
    let r = authenticate(&table, &vec![a, b], a, SENDER);
    assert!(matches!(
        r,
        Err(UserInputError::InvalidChildObjectArgument { child_id: _, parent_id: _ })
    ));
}

#[test]
fn test_entry_point_vector_empty() {
    let mut table = ObjectTable::new();
    table.add(stored(80, 1, Owner::AddressOwner(SENDER), COIN_TYPE));

    // An empty vector with an explicit element type tag is fine.
    let tx = one_call(vec![CallArg::ObjVec { type_tag: Some(COIN_TYPE), ids: vec![] }]);
    assert_eq!(validate_transaction(&table, &tx, SENDER), Ok(()));

    // An empty vector with no tag has no inferable element type.
    let tx = one_call(vec![CallArg::ObjVec { type_tag: None, ids: vec![] }]);
    assert_eq!(
        validate_transaction(&table, &tx, SENDER),
        Err(Rejection::Input(UserInputError::EmptyCommandInput))
    );
}

#[test]
fn test_entry_point_vector() {
    let obj: u64 = 81;
    let parent: u64 = 82;
    let field: u64 = 83;
    let child: u64 = 84;

    let mut table = ObjectTable::new();
    table.add(stored(obj, 2, Owner::AddressOwner(SENDER), COIN_TYPE));
    table.add(stored(parent, 2, Owner::AddressOwner(SENDER), COIN_TYPE));
    table.add(stored(field, 3, Owner::ObjectOwner(parent), COIN_TYPE));
    table.add(stored(child, 3, Owner::ObjectOwner(field), COIN_TYPE));

    // A vector holding one owned object of the right type is accepted.
    let tx = one_call(vec![CallArg::ObjVec { type_tag: Some(COIN_TYPE), ids: vec![obj] }]);
    assert_eq!(validate_transaction(&table, &tx, SENDER), Ok(()));

    // The same vector with an inferred element type is accepted too.
    let tx = one_call(vec![CallArg::ObjVec { type_tag: None, ids: vec![obj] }]);
    assert_eq!(validate_transaction(&table, &tx, SENDER), Ok(()));

    // A child passed by value without its field object present fails with
    // the chain error, even though the parent rides in a vector.
    let tx = one_call(vec![
        CallArg::Object(child),
        CallArg::ObjVec { type_tag: Some(COIN_TYPE), ids: vec![parent] },
    ]);
    assert_eq!(
        validate_transaction(&table, &tx, SENDER),
        Err(Rejection::Input(UserInputError::InvalidChildObjectArgument {
            child_id: child,
            parent_id: field,
        }))
    );
}

#[test]
fn test_entry_point_vector_error() {
    let wrong: u64 = 90;
    let right: u64 = 91;
    let shared: u64 = 92;
    let obj: u64 = 93;

    let mut table = ObjectTable::new();
    table.add(stored(wrong, 2, Owner::AddressOwner(SENDER), OTHER_TYPE));
    table.add(stored(right, 2, Owner::AddressOwner(SENDER), COIN_TYPE));
    table.add(stored(shared, 2, Owner::Shared { initial_shared_version: 2 }, COIN_TYPE));
    table.add(stored(obj, 2, Owner::AddressOwner(SENDER), COIN_TYPE));

    // A vector element of the wrong runtime type fails verification at
    // the owning command.
    let tx = one_call(vec![CallArg::ObjVec { type_tag: Some(COIN_TYPE), ids: vec![wrong] }]);
    assert_eq!(
        validate_transaction(&table, &tx, SENDER),
        Err(Rejection::Exec {
            command: 0,
            failure: ExecutionFailure::VMVerificationOrDeserializationError,
        })
    );

    // One wrong element among right ones still fails.
    let tx = one_call(vec![
        CallArg::ObjVec { type_tag: Some(COIN_TYPE), ids: vec![wrong, right] },
    ]);
    assert_eq!(
        validate_transaction(&table, &tx, SENDER),
        Err(Rejection::Exec {
            command: 0,
            failure: ExecutionFailure::VMVerificationOrDeserializationError,
        })
    );

    // Shared objects are not permitted as vector elements.
    let tx = one_call(vec![CallArg::ObjVec { type_tag: Some(COIN_TYPE), ids: vec![shared] }]);
    assert_eq!(
        validate_transaction(&table, &tx, SENDER),
        Err(Rejection::Exec {
            command: 0,
            failure: ExecutionFailure::VMVerificationOrDeserializationError,
        })
    );

    // The same object as a scalar argument and inside a vector fails at
    // the vector's argument index, in either order.
    let tx = one_call(vec![
        CallArg::Object(obj),
        CallArg::ObjVec { type_tag: Some(COIN_TYPE), ids: vec![obj] },
    ]);
    assert_eq!(
        validate_transaction(&table, &tx, SENDER),
        Err(Rejection::Exec {
            command: 0,
            failure: ExecutionFailure::CommandArgumentError {
                arg_idx: 1,
                kind: CommandArgumentError::InvalidUsageOfTakenValue,
            },
        })
    );
    let tx = one_call(vec![
        CallArg::ObjVec { type_tag: Some(COIN_TYPE), ids: vec![obj] },
        CallArg::Object(obj),
    ]);
    assert_eq!(
        validate_transaction(&table, &tx, SENDER),
        Err(Rejection::Exec {
            command: 0,
            failure: ExecutionFailure::CommandArgumentError {
                arg_idx: 0,
                kind: CommandArgumentError::InvalidUsageOfTakenValue,
            },
        })
    );
}

#[test]
fn test_entry_point_vector_any() {
    let any_type: u64 = 99;
    let obj: u64 = 100;
    let mut table = ObjectTable::new();
    table.add(stored(obj, 2, Owner::AddressOwner(SENDER), any_type));

    let tx = one_call(vec![CallArg::ObjVec { type_tag: Some(any_type), ids: vec![obj] }]);
    assert_eq!(validate_transaction(&table, &tx, SENDER), Ok(()));
}

#[test]
fn test_entry_point_vector_any_error() {
    let any_type: u64 = 99;
    let obj: u64 = 101;
    let mut table = ObjectTable::new();
    table.add(stored(obj, 2, Owner::AddressOwner(SENDER), any_type));

    // Same object by value and inside a vector, under a generic element
    // type: still invalid usage of a taken value at the vector.
    let tx = one_call(vec![
        CallArg::Object(obj),
        CallArg::ObjVec { type_tag: Some(any_type), ids: vec![obj] },
    ]);
    assert_eq!(
        validate_transaction(&table, &tx, SENDER),
        Err(Rejection::Exec {
            command: 0,
            failure: ExecutionFailure::CommandArgumentError {
                arg_idx: 1,
                kind: CommandArgumentError::InvalidUsageOfTakenValue,
            },
        })
    );
}

#[test]
fn test_entry_point_vector_primitive() {
    let mut table = ObjectTable::new();
    table.add(stored(110, 1, Owner::AddressOwner(SENDER), COIN_TYPE));

    // A vector of two primitive values, encoded canonically.
    let bytes = bcs::to_bytes(&vec![7_u64, 42_u64]).unwrap();
    let tx = one_call(vec![CallArg::Pure { layout: PureLayout::U64Vector, bytes }]);
    assert_eq!(validate_transaction(&table, &tx, SENDER), Ok(()));
}

#[test]
fn duplicate_across_commands_fails_at_the_later_command() {
    let obj: u64 = 120;
    let mut table = ObjectTable::new();
    table.add(stored(obj, 2, Owner::AddressOwner(SENDER), COIN_TYPE));

    let tx = Transaction {
        commands: vec![
            MoveCall { args: vec![CallArg::Object(obj)] },
            MoveCall { args: vec![CallArg::Object(obj)] },
        ],
    };
    assert_eq!(
        validate_transaction(&table, &tx, SENDER),
        Err(Rejection::Exec {
            command: 1,
            failure: ExecutionFailure::CommandArgumentError {
                arg_idx: 0,
                kind: CommandArgumentError::InvalidUsageOfTakenValue,
            },
        })
    );
}

#[test]
fn malformed_pure_argument_fails_at_its_index() {
    let mut table = ObjectTable::new();
    table.add(stored(130, 1, Owner::AddressOwner(SENDER), COIN_TYPE));

    // Seven bytes cannot be a 64-bit integer.
    let tx = one_call(vec![CallArg::Pure {
        layout: PureLayout::U64,
        bytes: vec![1, 2, 3, 4, 5, 6, 7],
    }]);
    assert_eq!(
        validate_transaction(&table, &tx, SENDER),
        Err(Rejection::Exec {
            command: 0,
            failure: ExecutionFailure::CommandArgumentError {
                arg_idx: 0,
                kind: CommandArgumentError::InvalidBCSBytes,
            },
        })
    );

    let tx = one_call(vec![CallArg::Pure {
        layout: PureLayout::Str(StrKind::Utf8),
        bytes: vec![2, 0xFF, 0xFF],
    }]);
    assert_eq!(
        validate_transaction(&table, &tx, SENDER),
        Err(Rejection::Exec {
            command: 0,
            failure: ExecutionFailure::CommandArgumentError {
                arg_idx: 0,
                kind: CommandArgumentError::InvalidBCSBytes,
            },
        })
    );
}

#[test]
fn ownership_transitions_shared_and_immutable_are_permanent() {
    let addr = Owner::AddressOwner(SENDER);
    let parented = Owner::ObjectOwner(5);
    let shared = Owner::Shared { initial_shared_version: 3 };
    let frozen = Owner::Immutable;

    // Single-owner objects move freely: adding a child to a parent and
    // extracting it back.
    assert!(check_owner_transition(&addr, &parented));
    assert!(check_owner_transition(&parented, &addr));

    // Anything may become shared or immutable...
    assert!(check_owner_transition(&addr, &shared));
    assert!(check_owner_transition(&addr, &frozen));

    // ...but neither transition can ever be undone, and a shared object
    // keeps its initial shared version.
    assert!(!check_owner_transition(&shared, &addr));
    assert!(!check_owner_transition(&shared, &Owner::Shared { initial_shared_version: 4 }));
    assert!(check_owner_transition(&shared, &Owner::Shared { initial_shared_version: 3 }));
    assert!(!check_owner_transition(&frozen, &addr));
    assert!(check_owner_transition(&frozen, &frozen));
}

#[test]
fn cascading_deletion_finds_transitively_owned_descendants() {
    let parent: u64 = 140;
    let field: u64 = 141;
    let child: u64 = 142;
    let stranger: u64 = 143;

    let mut table = ObjectTable::new();
    table.add(stored(parent, 2, Owner::AddressOwner(SENDER), COIN_TYPE));
    table.add(stored(field, 2, Owner::ObjectOwner(parent), COIN_TYPE));
    table.add(stored(child, 2, Owner::ObjectOwner(field), COIN_TYPE));
    table.add(stored(stranger, 2, Owner::AddressOwner(OTHER), COIN_TYPE));

    assert_eq!(owned_descendants(&table, parent), vec![field, child]);
    assert_eq!(owned_descendants(&table, field), vec![child]);
    assert_eq!(owned_descendants(&table, stranger), Vec::<u64>::new());
}

#[test]
fn latest_ref_returns_the_live_reference() {
    let obj: u64 = 150;
    let mut table = ObjectTable::new();
    table.add(stored(obj, 6, Owner::AddressOwner(SENDER), COIN_TYPE));
    assert_eq!(
        table.latest_ref(obj),
        Ok(ObjectRef { id: obj, version: 6, digest: Digest::Live(6) })
    );
    table.remove(obj);
    assert_eq!(
        table.latest_ref(obj),
        Err(UserInputError::ObjectNotFound { object_id: obj })
    );
}
