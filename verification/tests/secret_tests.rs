use nebula_backbone::claim::NebulaClaim;
use nebula_backbone::claim::Role;
use nebula_backbone::path::PathUseCaseImpl;
use nebula_backbone::secret::Error;
use nebula_backbone::secret::PostgresSecretService;
use nebula_backbone::store::AppliedPolicy;
use nebula_backbone::store::WorkspaceStore;

fn admin_claim() -> NebulaClaim {
    NebulaClaim {
        gid: "admin@cremit.io".to_owned(),
        workspace_name: "cremit".to_owned(),
        role: Role::Admin,
        attributes: Vec::new(),
    }
}

fn member_claim() -> NebulaClaim {
    NebulaClaim {
        gid: "member@cremit.io".to_owned(),
        workspace_name: "cremit".to_owned(),
        role: Role::Member,
        attributes: Vec::new(),
    }
}

fn base_store() -> WorkspaceStore {
    let mut store = WorkspaceStore::new();
    let usecase = PathUseCaseImpl::new("testworkspace".to_owned());
    let admin = admin_claim();
    for p in ["/", "/apps"] {
        usecase
            .register(&mut store, p, &Vec::new(), &admin, 0)
            .expect("registering a test path should succeed");
    }
    store
}

#[test]
fn member_access_denied_on_policied_secret_and_admin_allowed() {
    let mut store = base_store();
    let service = PostgresSecretService {};
    let bindings =
        vec![AppliedPolicy { policy_id: 1, expression: "\"role=ADMIN@X\"".to_owned() }];
    service
        .register_secret(&mut store, 1, "db_password", "/apps", &bindings, &admin_claim(), 0)
        .expect("registering the secret should succeed");

    let member = member_claim();
    let denied = service.get_secret(&store, "db_password", &member);
    assert!(matches!(denied, Err(Error::AccessDenied)));

    let admin = admin_claim();
    let granted = service.get_secret(&store, "db_password", &admin);
    assert!(granted.is_ok());
}

#[test]
fn a_member_with_the_demanded_attribute_reads_the_secret() {
    let mut store = base_store();
    let service = PostgresSecretService {};
    let bindings =
        vec![AppliedPolicy { policy_id: 1, expression: "\"team=CORE\"".to_owned() }];
    service
        .register_secret(&mut store, 1, "db_password", "/apps", &bindings, &admin_claim(), 0)
        .expect("registering the secret should succeed");

    let mut entitled = member_claim();
    entitled.attributes.push(("team".to_owned(), "CORE".to_owned()));
    let granted =
        service.get_secret(&store, "db_password", &entitled).expect("the read should succeed");
    assert_eq!(granted.key, "db_password");
    assert_eq!(granted.path, "/apps");
}

#[test]
fn path_policies_guard_the_secrets_below_them() {
    let mut store = base_store();
    let admin = admin_claim();
    let usecase = PathUseCaseImpl::new("testworkspace".to_owned());
    let bindings =
        vec![AppliedPolicy { policy_id: 1, expression: "\"tier=PROD\"".to_owned() }];
    usecase
        .register(&mut store, "/apps/prod", &bindings, &admin, 0)
        .expect("registering the guarded path should succeed");
    let service = PostgresSecretService {};
    service
        .register_secret(&mut store, 2, "prod_key", "/apps/prod", &Vec::new(), &admin, 0)
        .expect("registering the secret should succeed");

    let member = member_claim();
    assert!(matches!(service.get_secret(&store, "prod_key", &member), Err(Error::AccessDenied)));

    let mut entitled = member_claim();
    entitled.attributes.push(("tier".to_owned(), "PROD".to_owned()));
    assert!(service.get_secret(&store, "prod_key", &entitled).is_ok());
}

#[test]
fn missing_secret_reports_secret_not_exists() {
    let store = base_store();
    let service = PostgresSecretService {};

    let result = service.get_secret(&store, "nothing_here", &admin_claim());

    assert!(matches!(result, Err(Error::SecretNotExists)));
}

#[test]
fn duplicate_identifier_is_refused() {
    let mut store = base_store();
    let service = PostgresSecretService {};
    service
        .register_secret(&mut store, 1, "twice", "/apps", &Vec::new(), &admin_claim(), 0)
        .expect("the first registration should succeed");

    let result =
        service.register_secret(&mut store, 2, "twice", "/apps", &Vec::new(), &admin_claim(), 0);

    assert!(matches!(result, Err(Error::IdentifierConflicted { .. })));
}

#[test]
fn malformed_identifier_is_refused() {
    let mut store = base_store();
    let service = PostgresSecretService {};

    for bad in ["", "a/b"] {
        let result =
            service.register_secret(&mut store, 1, bad, "/apps", &Vec::new(), &admin_claim(), 0);
        assert!(matches!(result, Err(Error::InvalidSecretIdentifier { .. })), "key {:?}", bad);
    }
}

#[test]
fn a_secret_needs_an_existing_path() {
    let mut store = base_store();
    let service = PostgresSecretService {};

    let result = service.register_secret(
        &mut store,
        1,
        "orphan",
        "/nowhere",
        &Vec::new(),
        &admin_claim(),
        0,
    );

    assert!(matches!(result, Err(Error::ParentPathNotExists { .. })));
}

#[test]
fn counting_children_sees_paths_and_secrets() {
    let mut store = base_store();
    let admin = admin_claim();
    let usecase = PathUseCaseImpl::new("testworkspace".to_owned());
    usecase
        .register(&mut store, "/apps/svc", &Vec::new(), &admin, 0)
        .expect("registering the child path should succeed");
    let service = PostgresSecretService {};
    service
        .register_secret(&mut store, 3, "deep", "/apps/svc", &Vec::new(), &admin, 0)
        .expect("registering the secret should succeed");

    assert!(service.count_child_paths(&store, "/apps") > 0);
    assert!(service.count_child_secrets(&store, "/apps") > 0);
    assert_eq!(service.count_child_paths(&store, "/apps/svc"), 0);
    assert!(service.count_child_secrets(&store, "/apps/svc") > 0);
}
