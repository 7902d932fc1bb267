use effects_core::effects::{build_effects, ExecutionOutcome, PreObject, PriorState, WriteOp};
use effects_core::errors::{
    ExecutionFailure, ExecutionStatus, ModulePublishFailure, Rejection, UserInputError,
};
use effects_core::model::Owner;
use effects_core::publish::{
    check_publish_modules, check_unpublished_dependencies, prepare_publish, PackageDependency,
};

const SENDER: u64 = 0xA11CE;
const GAS: u64 = 1;

fn module(bytes: &[u8]) -> Vec<u8> {
    bytes.to_vec()
}

#[test]
fn test_publish_empty_package() {
    // An empty module list is an empty command input.
    assert_eq!(
        check_publish_modules(&vec![], 0),
        Err(Rejection::Input(UserInputError::EmptyCommandInput))
    );

    // A list holding only empty module blobs carries nothing to publish
    // either.
    assert_eq!(
        check_publish_modules(&vec![vec![]], 0),
        Err(Rejection::Input(UserInputError::EmptyCommandInput))
    );
}

#[test]
fn test_publish_duplicate_modules() {
    // Two modules with identical serialized bytecode fail verification.
    let m = module(b"module object_owner");
    assert_eq!(
        check_publish_modules(&vec![m.clone(), m], 0),
        Err(Rejection::Exec {
            command: 0,
            failure: ExecutionFailure::VMVerificationOrDeserializationError,
        })
    );

    // An empty blob among non-empty ones fails verification too.
    assert_eq!(
        check_publish_modules(&vec![module(b"module a"), vec![]], 0),
        Err(Rejection::Exec {
            command: 0,
            failure: ExecutionFailure::VMVerificationOrDeserializationError,
        })
    );

    // Distinct non-empty modules pass.
    assert_eq!(
        check_publish_modules(&vec![module(b"module a"), module(b"module b")], 0),
        Ok(())
    );
}

#[test]
fn test_publishing_with_unpublished_deps() {
    const DEP_NAME: u64 = 0xDE9;
    let own = vec![module(b"module depends_on_basics")];
    let dep = PackageDependency {
        name: DEP_NAME,
        published_at: None,
        modules: vec![module(b"module object_basics")],
    };
    let package: u64 = 200;
    let cap: u64 = 201;

    // Without the override, the unpublished dependency is named.
    let r = prepare_publish(&own, &vec![dep.clone()], false, SENDER, package, cap, 50, 51, 0);
    match r {
        Err(e) => assert_eq!(
            e,
            Rejection::Publish(ModulePublishFailure { dependency: DEP_NAME })
        ),
        Ok(_) => panic!("publish without the override must fail"),
    }

    // With the override, the publish succeeds and bundles the
    // dependency's module next to the package's own.
    let out = prepare_publish(&own, &vec![dep], true, SENDER, package, cap, 50, 51, 0)
        .expect("publish with unpublished dependencies must succeed");
    assert_eq!(out.modules.len(), 2);
    assert_eq!(out.modules[0], module(b"module depends_on_basics"));
    assert_eq!(out.modules[1], module(b"module object_basics"));

    // The publish creates an immutable package and a sender-owned
    // upgrade capability, versioned like every other write.
    assert_eq!(out.package_write.owner, Owner::Immutable);
    assert_eq!(out.cap_write.owner, Owner::AddressOwner(SENDER));

    let effects = build_effects(
        &vec![PreObject { id: GAS, prior: PriorState::Live { version: 3 } }],
        &ExecutionOutcome {
            writes: vec![
                WriteOp { id: GAS, owner: Owner::AddressOwner(SENDER), content: 60 },
                out.package_write,
                out.cap_write,
            ],
            deletes: vec![],
            wraps: vec![],
        },
        GAS,
        ExecutionStatus::Success,
    );
    assert!(effects.status().is_ok());
    assert_eq!(effects.created().len(), 2);
    let package_entry = effects
        .created()
        .iter()
        .find(|(_, owner)| matches!(owner, Owner::Immutable))
        .expect("the package object is created immutable");
    let cap_entry = effects
        .created()
        .iter()
        .find(|(_, owner)| matches!(owner, Owner::AddressOwner(_)))
        .expect("the upgrade capability is created address-owned");
    assert_eq!(package_entry.0.version, 4);
    assert_eq!(cap_entry.0.version, 4);
}

#[test]
fn test_custom_property_check_unpublished_dependencies() {
    const MISSING: u64 = 0xBAD;
    let deps = vec![
        PackageDependency {
            name: 0x600D,
            published_at: Some(0x777),
            modules: vec![],
        },
        PackageDependency {
            name: MISSING,
            published_at: None,
            modules: vec![module(b"module unpublished")],
        },
    ];

    // The failure names the dependency that lacks a published address.
    assert_eq!(
        check_unpublished_dependencies(&deps),
        Err(ModulePublishFailure { dependency: MISSING })
    );

    // With every dependency published, the check passes.
    let all_published = vec![PackageDependency {
        name: 0x600D,
        published_at: Some(0x777),
        modules: vec![],
    }];
    assert_eq!(check_unpublished_dependencies(&all_published), Ok(()));
}
