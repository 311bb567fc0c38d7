use nebula_backbone::claim::Role;
use nebula_backbone::saml::AdminRoleConfig;
use nebula_backbone::saml::AttributesConfig;
use nebula_backbone::saml::Error;
use nebula_backbone::saml::WorkspaceResolution;
use nebula_backbone::saml::callback_redirect_uri;
use nebula_backbone::saml::check_state;
use nebula_backbone::saml::extract_claim;

fn config_from_attribute() -> AttributesConfig {
    AttributesConfig {
        gid_attribute: "email".to_owned(),
        workspace: WorkspaceResolution::FromAttribute { attribute: "org".to_owned() },
        admin_role: AdminRoleConfig { attribute: "role".to_owned(), value: "ADMIN".to_owned() },
    }
}

fn pairs(ps: &[(&str, &str)]) -> Vec<(String, String)> {
    ps.iter().map(|(k, v)| (k.to_string(), v.to_string())).collect()
}

#[test]
fn a_complete_assertion_yields_the_mapped_claim() {
    let attrs = pairs(&[("email", "dev@cremit.io"), ("org", "cremit"), ("role", "ADMIN")]);

    let claim = extract_claim(&config_from_attribute(), &attrs).expect("the claim should build");

    assert_eq!(claim.gid, "dev@cremit.io");
    assert_eq!(claim.workspace_name, "cremit");
    assert_eq!(claim.role, Role::Admin);
    assert_eq!(claim.attributes, attrs);
}

#[test]
fn the_admin_predicate_needs_the_exact_value() {
    let attrs = pairs(&[("email", "dev@cremit.io"), ("org", "cremit"), ("role", "MEMBER")]);
    let claim = extract_claim(&config_from_attribute(), &attrs).expect("the claim should build");
    assert_eq!(claim.role, Role::Member);

    let attrs = pairs(&[("email", "dev@cremit.io"), ("org", "cremit")]);
    let claim = extract_claim(&config_from_attribute(), &attrs).expect("the claim should build");
    assert_eq!(claim.role, Role::Member);
}

#[test]
fn a_missing_gid_attribute_is_reported_by_name() {
    let attrs = pairs(&[("org", "cremit")]);

    let result = extract_claim(&config_from_attribute(), &attrs);

    match result {
        Err(Error::AttributeMissing { name }) => assert_eq!(name, "email"),
        _ => panic!("expected AttributeMissing"),
    }
}

#[test]
fn a_missing_workspace_attribute_is_reported_by_name() {
    let attrs = pairs(&[("email", "dev@cremit.io")]);

    let result = extract_claim(&config_from_attribute(), &attrs);

    match result {
        Err(Error::AttributeMissing { name }) => assert_eq!(name, "org"),
        _ => panic!("expected AttributeMissing"),
    }
}

#[test]
fn a_static_workspace_needs_no_attribute() {
    let config = AttributesConfig {
        gid_attribute: "email".to_owned(),
        workspace: WorkspaceResolution::Static { name: "fixed".to_owned() },
        admin_role: AdminRoleConfig { attribute: "role".to_owned(), value: "ADMIN".to_owned() },
    };
    let attrs = pairs(&[("email", "dev@cremit.io")]);

    let claim = extract_claim(&config, &attrs).expect("the claim should build");

    assert_eq!(claim.workspace_name, "fixed");
}

#[test]
fn callbacks_must_echo_the_issued_state() {
    assert!(check_state("st-123", "st-123").is_ok());
    assert!(matches!(check_state("st-123", "st-999"), Err(Error::StateMismatch)));
}

#[test]
fn the_redirect_location_trims_the_prefix() {
    assert_eq!(
        callback_redirect_uri("https://auth.example", None),
        "https://auth.example/callback/saml"
    );
    assert_eq!(
        callback_redirect_uri("https://auth.example", Some("/v1/auth/")),
        "https://auth.example/v1/auth/callback/saml"
    );
    assert_eq!(
        callback_redirect_uri("https://auth.example", Some("tenant")),
        "https://auth.example/tenant/callback/saml"
    );
}
