use nebula_backbone::config::ApplicationConfig;
use nebula_backbone::config::AuthMethod;
use nebula_backbone::config::DatabaseAuthConfig;
use nebula_backbone::config::DatabaseConfig;
use nebula_backbone::config::JwksDiscoveryPlan;
use nebula_backbone::config::WorkspaceConfig;
use nebula_backbone::config::create_database_auth_method;
use nebula_backbone::config::migration_targets;
use nebula_backbone::config::plan_jwks_discovery;
use nebula_backbone::config::refreshed_jwks;
use nebula_backbone::config::schema_name_for_workspace;
use nebula_backbone::token::JwkSet;
use nebula_backbone::workspace::ControlStore;
use nebula_backbone::workspace::Error;
use nebula_backbone::workspace::Workspace;
use nebula_backbone::workspace::create_workspace;

fn config(auth: DatabaseAuthConfig, workspace: WorkspaceConfig) -> ApplicationConfig {
    ApplicationConfig {
        database: DatabaseConfig {
            host: "db.internal".to_owned(),
            port: 5432,
            database_name: "nebula".to_owned(),
            auth,
        },
        workspace,
        jwks_refresh_interval: None,
        token_lifetime: 3600,
    }
}

#[test]
fn credential_auth_passes_through() {
    let cfg = config(
        DatabaseAuthConfig::Credential {
            username: "svc".to_owned(),
            password: "SECRET-REDACTED".to_owned(),
        },
        WorkspaceConfig::Dynamic,
    );
    match create_database_auth_method(&cfg) {
        AuthMethod::Credential { username, password } => {
            assert_eq!(username, "svc");
            assert_eq!(password, "SECRET-REDACTED");
        }
        _ => panic!("expected credential auth"),
    }
}

#[test]
fn iam_auth_carries_host_and_port() {
    let cfg = config(
        DatabaseAuthConfig::RdsIamAuth { username: "svc".to_owned() },
        WorkspaceConfig::Dynamic,
    );
    match create_database_auth_method(&cfg) {
        AuthMethod::RdsIamAuth { host, port, username } => {
            assert_eq!(host, "db.internal");
            assert_eq!(port, 5432);
            assert_eq!(username, "svc");
        }
        _ => panic!("expected IAM auth"),
    }
}

#[test]
fn schema_names_carry_the_workspace_prefix() {
    assert_eq!(schema_name_for_workspace("cremit"), "workspace_cremit");
}

#[test]
fn migration_targets_follow_the_topology() {
    let static_cfg = config(
        DatabaseAuthConfig::RdsIamAuth { username: "svc".to_owned() },
        WorkspaceConfig::Static { name: "only".to_owned() },
    );
    assert_eq!(migration_targets(&static_cfg, &vec!["a".to_owned()]), vec!["only".to_owned()]);

    let dynamic_cfg = config(
        DatabaseAuthConfig::RdsIamAuth { username: "svc".to_owned() },
        WorkspaceConfig::Dynamic,
    );
    let recorded = vec!["a".to_owned(), "b".to_owned()];
    assert_eq!(migration_targets(&dynamic_cfg, &recorded), recorded);
}

#[test]
fn jwks_discovery_follows_the_refresh_interval() {
    let mut cfg = config(
        DatabaseAuthConfig::RdsIamAuth { username: "svc".to_owned() },
        WorkspaceConfig::Dynamic,
    );
    assert!(matches!(plan_jwks_discovery(&cfg), JwksDiscoveryPlan::StaticFetchOnce));
    cfg.jwks_refresh_interval = Some(30);
    assert!(matches!(
        plan_jwks_discovery(&cfg),
        JwksDiscoveryPlan::CachedRemote { refresh_interval_secs: 30 }
    ));
}

#[test]
fn a_failed_refresh_keeps_the_cached_set() {
    let current = JwkSet { keys: Vec::new(), active_kid: "a".to_owned() };
    let kept = refreshed_jwks(current, None);
    assert_eq!(kept.active_kid, "a");

    let swapped = refreshed_jwks(kept, Some(JwkSet { keys: Vec::new(), active_kid: "b".to_owned() }));
    assert_eq!(swapped.active_kid, "b");
}

#[test]
fn workspace_names_are_validated_and_unique() {
    let mut control = ControlStore::new();
    create_workspace(&mut control, "cremit", 1).expect("a valid name should register");

    let conflicted = create_workspace(&mut control, "cremit", 2);
    assert!(matches!(conflicted, Err(Error::WorkspaceNameConflicted)));

    for bad in ["", "Cremit", "1team", "with-dash", "waaaaaaaaaaaaaaaaaaaaaaaaaaaaaaaaaaaaaaaaaaaaaaaaaaaaaaaaaaaaaay_too_long"] {
        let result = create_workspace(&mut control, bad, 3);
        assert!(matches!(result, Err(Error::InvalidWorkspaceName)), "name {:?}", bad);
    }
}

#[test]
fn deleting_a_workspace_removes_its_row_on_persist() {
    let mut control = ControlStore::new();
    create_workspace(&mut control, "cremit", 1).expect("registering should succeed");
    create_workspace(&mut control, "acme", 2).expect("registering should succeed");

    let mut ws = Workspace::new(1, "cremit".to_owned());
    ws.delete();
    ws.persist(&mut control).expect("persisting the deletion should succeed");

    assert_eq!(control.workspaces.len(), 1);
    assert_eq!(control.workspaces[0].name, "acme");
}
