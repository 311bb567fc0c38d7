use nebula_backbone::policy::AccessCondition;
use nebula_backbone::policy::Error;
use nebula_backbone::policy::PostgresPolicyService;
use nebula_backbone::store::WorkspaceStore;

#[test]
fn when_getting_policy_data_is_successful_then_policy_service_returns_policies_ok() {
    let policy_id: u128 = 0x0123456789abcdef;
    let policy_name = "test policy";
    let expression = "(\"role=FRONTEND\")";
    let mut store = WorkspaceStore::new();
    let policy_service = PostgresPolicyService {};
    policy_service
        .register(&mut store, policy_name, expression, policy_id, 0)
        .expect("registering the policy should be successful");

    let result = policy_service.list(&store).expect("listing policies should be successful");

    assert_eq!(result[0].id, policy_id);
    assert_eq!(result[0].name, policy_name);
    assert_eq!(result[0].expression, expression);
}

#[test]
fn when_managed_policy_is_empty_then_policy_service_returns_empty_ok() {
    let store = WorkspaceStore::new();
    let policy_service = PostgresPolicyService {};

    let result = policy_service.list(&store).expect("listing policies should be successful");

    assert!(result.is_empty())
}

#[test]
fn when_registering_policy_with_invalid_expression_then_policy_service_returns_invalid_policy_err()
{
    let mut store = WorkspaceStore::new();
    let policy_service = PostgresPolicyService {};

    let invalid_expressions = ["(\"role=FRONTEND@A\""];

    for invalid_expression in invalid_expressions {
        let result = policy_service.register(&mut store, "test", invalid_expression, 1, 0);
        assert!(matches!(result, Err(Error::InvalidExpression { .. })));
    }
}

#[test]
fn when_registering_policy_with_already_registered_name_then_policy_service_returns_policy_name_duplicated_err(
) {
    let mut store = WorkspaceStore::new();
    let policy_service = PostgresPolicyService {};
    policy_service
        .register(&mut store, "test", "(\"role=FRONTEND\")", 1, 0)
        .expect("the first registration should be successful");

    let result = policy_service.register(&mut store, "test", "(\"role=FRONTEND\")", 2, 0);

    assert!(matches!(result, Err(Error::PolicyNameDuplicated { .. })));
}

#[test]
fn when_registering_policy_is_successful_then_policy_service_returns_unit_ok() {
    let mut store = WorkspaceStore::new();
    let policy_service = PostgresPolicyService {};

    policy_service
        .register(&mut store, "test", "(\"role=FRONTEND@A\")", 1, 0)
        .expect("registering policy should be successful");
}

#[test]
fn when_updating_name_then_updated_name_turns_into_new_name() {
    let mut policy =
        AccessCondition::new(1, "test1".to_owned(), "(\"role=FRONTEND@A\")".to_owned());

    assert_eq!(policy.updated_name, None);

    policy.update_name("test2");

    assert_eq!(policy.updated_name, Some("test2".to_owned()));
}

#[test]
fn when_updating_name_with_same_name_then_updated_name_not_changed() {
    let mut policy =
        AccessCondition::new(1, "test1".to_owned(), "(\"role=FRONTEND@A\")".to_owned());

    assert_eq!(policy.updated_name, None);

    policy.update_name("test1");

    assert_eq!(policy.updated_name, None);
}

#[test]
fn when_updating_expression_then_updated_expression_turns_into_new_expression() {
    let mut policy =
        AccessCondition::new(1, "test1".to_owned(), "(\"role=FRONTEND@A\")".to_owned());

    assert_eq!(policy.updated_expression, None);

    policy
        .update_expression("(\"role=BACKEND@A\")")
        .expect("updating expression should be successful");

    assert_eq!(policy.updated_expression, Some("(\"role=BACKEND@A\")".to_owned()));
}

#[test]
fn when_updating_expression_with_same_expression_then_updated_expression_not_changed() {
    let mut policy =
        AccessCondition::new(1, "test1".to_owned(), "(\"role=FRONTEND@A\")".to_owned());

    assert_eq!(policy.updated_expression, None);

    policy
        .update_expression("(\"role=FRONTEND@A\")")
        .expect("updating expression should be successful");

    assert_eq!(policy.updated_expression, None);
}

#[test]
fn when_updating_expression_with_invalid_expression_then_policy_returns_invalid_policy_err() {
    let mut policy =
        AccessCondition::new(1, "test1".to_owned(), "(\"role=FRONTEND@A\")".to_owned());

    assert_eq!(policy.updated_expression, None);

    let result = policy.update_expression("(\"role=FRONTEND@A\"");

    assert!(matches!(result, Err(Error::InvalidExpression)));
}

#[test]
fn when_update_and_persist_with_existing_name_then_policy_returns_name_duplicated_err() {
    let mut store = WorkspaceStore::new();
    let policy_service = PostgresPolicyService {};
    policy_service
        .register(&mut store, "test1", "(\"role=FRONTEND@A\")", 1, 0)
        .expect("registering test1 should be successful");
    policy_service
        .register(&mut store, "test2", "(\"role=BACKEND@A\")", 2, 0)
        .expect("registering test2 should be successful");

    let mut policy =
        AccessCondition::new(1, "test1".to_owned(), "(\"role=FRONTEND@A\")".to_owned());
    policy.update_name("test2");

    let result = policy.persist(&mut store);

    assert!(matches!(result, Err(Error::PolicyNameDuplicated { .. })));
}

#[test]
fn when_deleting_policy_then_deleted_into_true() {
    let mut policy =
        AccessCondition::new(1, "test1".to_owned(), "(\"role=FRONTEND@A\")".to_owned());

    assert!(!policy.deleted);

    policy.delete();

    assert!(policy.deleted);
}

#[test]
fn persisting_a_staged_rename_rewrites_the_row() {
    let mut store = WorkspaceStore::new();
    let policy_service = PostgresPolicyService {};
    policy_service
        .register(&mut store, "old_name", "(\"role=FRONTEND@A\")", 1, 0)
        .expect("registering should be successful");

    let mut policy =
        AccessCondition::new(1, "old_name".to_owned(), "(\"role=FRONTEND@A\")".to_owned());
    policy.update_name("new_name");
    policy.persist(&mut store).expect("persisting should be successful");

    let rows = policy_service.list(&store).expect("listing should be successful");
    assert_eq!(rows.len(), 1);
    assert_eq!(rows[0].name, "new_name");
}

#[test]
fn persisting_twice_after_a_fresh_load_produces_identical_rows() {
    let mut store = WorkspaceStore::new();
    let policy_service = PostgresPolicyService {};
    policy_service
        .register(&mut store, "old_name", "(\"role=FRONTEND@A\")", 1, 0)
        .expect("registering should be successful");

    let mut first =
        AccessCondition::new(1, "old_name".to_owned(), "(\"role=FRONTEND@A\")".to_owned());
    first.update_name("new_name");
    first.persist(&mut store).expect("the first persist should succeed");

    let loaded = policy_service
        .get(&store, 1)
        .expect("lookup should succeed")
        .expect("the row should exist");
    let mut second = AccessCondition::new(loaded.id, loaded.name, loaded.expression);
    second.update_name("new_name");
    assert_eq!(second.updated_name, None);
    second.persist(&mut store).expect("the second persist should succeed");

    let rows = policy_service.list(&store).expect("listing should succeed");
    assert_eq!(rows.len(), 1);
    assert_eq!(rows[0].name, "new_name");
    assert_eq!(rows[0].expression, "(\"role=FRONTEND@A\")");
}

#[test]
fn persisting_a_deleted_policy_removes_the_row() {
    let mut store = WorkspaceStore::new();
    let policy_service = PostgresPolicyService {};
    policy_service
        .register(&mut store, "doomed", "(\"role=FRONTEND@A\")", 1, 0)
        .expect("registering should be successful");

    let mut policy =
        AccessCondition::new(1, "doomed".to_owned(), "(\"role=FRONTEND@A\")".to_owned());
    policy.delete();
    policy.persist(&mut store).expect("persisting the deletion should succeed");

    let rows = policy_service.list(&store).expect("listing should succeed");
    assert!(rows.is_empty());
}
