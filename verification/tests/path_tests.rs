use nebula_backbone::claim::NebulaClaim;
use nebula_backbone::claim::Role;
use nebula_backbone::path::Error;
use nebula_backbone::path::PathUseCaseImpl;
use nebula_backbone::secret::PostgresSecretService;
use nebula_backbone::store::AppliedPolicy;
use nebula_backbone::store::WorkspaceStore;

fn member_claim() -> NebulaClaim {
    NebulaClaim {
        gid: "test@cremit.io".to_owned(),
        workspace_name: "cremit".to_owned(),
        role: Role::Member,
        attributes: Vec::new(),
    }
}

fn admin_claim() -> NebulaClaim {
    NebulaClaim {
        gid: "admin@cremit.io".to_owned(),
        workspace_name: "cremit".to_owned(),
        role: Role::Admin,
        attributes: Vec::new(),
    }
}

fn store_with_paths(paths: &[&str]) -> WorkspaceStore {
    let mut store = WorkspaceStore::new();
    let usecase = PathUseCaseImpl::new("testworkspace".to_owned());
    let admin = admin_claim();
    for p in paths {
        usecase
            .register(&mut store, p, &Vec::new(), &admin, 0)
            .expect("registering a test path should succeed");
    }
    store
}

#[test]
fn when_getting_paths_is_successful_then_policy_usecase_returns_paths_ok() {
    let path = "/frontend";
    let store = store_with_paths(&["/", path]);
    let usecase = PathUseCaseImpl::new("testworkspace".to_owned());

    let result = usecase.get_all(&store).expect("getting paths should be successful");

    assert!(result.iter().any(|d| d.path == path));
}

#[test]
fn when_registering_path_is_successful_then_secret_usecase_returns_unit_ok() {
    let claim = member_claim();
    let mut store = store_with_paths(&["/", "/test"]);
    let usecase = PathUseCaseImpl::new("testworkspace".to_owned());

    usecase
        .register(&mut store, "/test/path", &Vec::new(), &claim, 0)
        .expect("registering path should be successful");
}

#[test]
fn when_deleting_existing_path_then_path_usecase_returns_unit_ok() {
    let claim = member_claim();
    let mut store = store_with_paths(&["/", "/test", "/test/path"]);
    let usecase = PathUseCaseImpl::new("testworkspace".to_owned());

    usecase.delete(&mut store, "/test/path", &claim).expect("deleting path should be successful");

    assert!(usecase.get(&store, "/test/path").is_err());
}

#[test]
fn when_deleting_existing_path_having_child_path_then_path_usecase_returns_path_is_in_use_err() {
    let claim = member_claim();
    let mut store = store_with_paths(&["/", "/test", "/test/path", "/test/path/x"]);
    let usecase = PathUseCaseImpl::new("testworkspace".to_owned());

    let result = usecase.delete(&mut store, "/test/path", &claim);

    assert!(matches!(result, Err(Error::PathIsInUse { ref entered_path }) if entered_path == "/test/path"));
}

#[test]
fn when_deleting_existing_path_having_child_secret_then_path_usecase_returns_path_is_in_use_err() {
    let claim = member_claim();
    let mut store = store_with_paths(&["/", "/test", "/test/path"]);
    let service = PostgresSecretService {};
    service
        .register_secret(&mut store, 7, "db_password", "/test/path", &Vec::new(), &admin_claim(), 0)
        .expect("registering a secret should succeed");
    let usecase = PathUseCaseImpl::new("testworkspace".to_owned());

    let result = usecase.delete(&mut store, "/test/path", &claim);

    assert!(matches!(result, Err(Error::PathIsInUse { .. })));
}

#[test]
fn when_deleting_not_existing_path_then_path_usecase_returns_path_not_exists_err() {
    let claim = member_claim();
    let mut store = store_with_paths(&["/"]);
    let usecase = PathUseCaseImpl::new("testworkspace".to_owned());

    let result = usecase.delete(&mut store, "/test/path", &claim);

    assert!(matches!(result, Err(Error::PathNotExists { .. })));
}

#[test]
fn when_updating_existing_path_then_path_usecase_returns_unit_ok() {
    let claim = member_claim();
    let mut store = store_with_paths(&["/", "/test", "/test/path", "/new", "/new/test"]);
    let usecase = PathUseCaseImpl::new("testworkspace".to_owned());

    usecase
        .update(&mut store, "/test/path", Some("/new/test/path"), None, &claim, 1)
        .expect("updating path should be successful");

    assert!(usecase.get(&store, "/new/test/path").is_ok());
    assert!(usecase.get(&store, "/test/path").is_err());
}

#[test]
fn when_updating_existing_path_to_existing_path_then_path_usecase_returns_path_duplicated_err() {
    let claim = member_claim();
    let mut store =
        store_with_paths(&["/", "/test", "/test/path", "/new", "/new/test", "/new/test/path"]);
    let usecase = PathUseCaseImpl::new("testworkspace".to_owned());

    let result = usecase.update(&mut store, "/test/path", Some("/new/test/path"), None, &claim, 1);

    assert!(matches!(result, Err(Error::PathDuplicated { .. })));
}

#[test]
fn register_under_missing_parent_reports_the_entered_path() {
    let claim = member_claim();
    let mut store = store_with_paths(&["/"]);
    let usecase = PathUseCaseImpl::new("testworkspace".to_owned());

    let result = usecase.register(&mut store, "/frontend/api", &Vec::new(), &claim, 0);

    match result {
        Err(Error::ParentPathNotExists { entered_path }) => {
            assert_eq!(entered_path, "/frontend/api");
        }
        other => panic!("expected ParentPathNotExists, got {:?}", other.is_ok()),
    }
}

#[test]
fn register_rejects_malformed_paths() {
    let claim = admin_claim();
    let mut store = store_with_paths(&["/"]);
    let usecase = PathUseCaseImpl::new("testworkspace".to_owned());

    for bad in ["", "frontend", "/a//b", "/a/"] {
        let result = usecase.register(&mut store, bad, &Vec::new(), &claim, 0);
        assert!(matches!(result, Err(Error::InvalidPath { .. })), "path {:?}", bad);
    }
}

#[test]
fn register_rejects_duplicates() {
    let claim = admin_claim();
    let mut store = store_with_paths(&["/", "/test"]);
    let usecase = PathUseCaseImpl::new("testworkspace".to_owned());

    let result = usecase.register(&mut store, "/test", &Vec::new(), &claim, 0);

    assert!(matches!(result, Err(Error::PathDuplicated { .. })));
}

#[test]
fn register_rejects_unparseable_policy_bindings() {
    let claim = admin_claim();
    let mut store = store_with_paths(&["/"]);
    let usecase = PathUseCaseImpl::new("testworkspace".to_owned());
    let bindings =
        vec![AppliedPolicy { policy_id: 1, expression: "(\"role=FRONTEND@A\"".to_owned() }];

    let result = usecase.register(&mut store, "/guarded", &bindings, &claim, 0);

    assert!(matches!(result, Err(Error::InvalidPathPolicy)));
}

#[test]
fn member_needs_ancestor_policies_to_register_below_a_guarded_path() {
    let admin = admin_claim();
    let mut store = store_with_paths(&["/"]);
    let usecase = PathUseCaseImpl::new("testworkspace".to_owned());
    let bindings =
        vec![AppliedPolicy { policy_id: 1, expression: "\"role=ADMIN@X\"".to_owned() }];
    usecase
        .register(&mut store, "/guarded", &bindings, &admin, 0)
        .expect("admin registers the guarded path");

    let plain = member_claim();
    let denied = usecase.register(&mut store, "/guarded/inner", &Vec::new(), &plain, 0);
    assert!(matches!(denied, Err(Error::AccessDenied)));

    let mut entitled = member_claim();
    entitled.attributes.push(("role".to_owned(), "ADMIN@X".to_owned()));
    usecase
        .register(&mut store, "/guarded/inner", &Vec::new(), &entitled, 0)
        .expect("a member whose attributes satisfy the policy may register");
}

#[test]
fn renaming_a_path_carries_descendants_and_secrets_along() {
    let admin = admin_claim();
    let mut store = store_with_paths(&["/", "/old", "/old/a", "/old/a/b", "/dst"]);
    let service = PostgresSecretService {};
    service
        .register_secret(&mut store, 9, "k1", "/old/a", &Vec::new(), &admin, 0)
        .expect("registering a secret should succeed");
    let usecase = PathUseCaseImpl::new("testworkspace".to_owned());

    usecase
        .update(&mut store, "/old", Some("/dst/renamed"), None, &admin, 5)
        .expect("renaming should succeed");

    assert!(usecase.get(&store, "/dst/renamed").is_ok());
    assert!(usecase.get(&store, "/dst/renamed/a").is_ok());
    assert!(usecase.get(&store, "/dst/renamed/a/b").is_ok());
    assert!(usecase.get(&store, "/old").is_err());
    let moved = service.get_secret(&store, "k1", &admin).expect("secret still readable");
    assert_eq!(moved.path, "/dst/renamed/a");
}

#[test]
fn a_path_cannot_move_below_itself() {
    let admin = admin_claim();
    let mut store = store_with_paths(&["/", "/a"]);
    let usecase = PathUseCaseImpl::new("testworkspace".to_owned());

    let result = usecase.update(&mut store, "/a", Some("/a/b"), None, &admin, 1);

    assert!(matches!(result, Err(Error::InvalidPath { .. })));
}
