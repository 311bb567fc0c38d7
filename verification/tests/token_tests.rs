use nebula_backbone::claim::NebulaClaim;
use nebula_backbone::claim::Role;
use nebula_backbone::token::Error;
use nebula_backbone::token::Jwk;
use nebula_backbone::token::JwkSet;
use nebula_backbone::token::TokenService;
use nebula_backbone::token::choose_signing_material;
use nebula_backbone::token::verify_token;

fn test_claim() -> NebulaClaim {
    NebulaClaim {
        gid: "machine-7".to_owned(),
        workspace_name: "cremit".to_owned(),
        role: Role::Member,
        attributes: vec![("team".to_owned(), "CORE".to_owned())],
    }
}

fn test_service() -> TokenService {
    let jwks = JwkSet {
        keys: vec![
            Jwk { kid: "older".to_owned(), secret: vec![9u8; 16] },
            Jwk { kid: "signing".to_owned(), secret: vec![1, 2, 3, 4, 5, 6, 7, 8] },
        ],
        active_kid: "unused".to_owned(),
    };
    TokenService::new("https://authority.example".to_owned(), 3600, jwks, "signing".to_owned())
}

#[test]
fn mint_then_verify_round_trips_the_claim_exactly() {
    let service = test_service();
    let claim = test_claim();

    let token = service.mint(&claim, 1_000).expect("minting should succeed");
    let verified = verify_token(&token, service.jwks(), 1_500).expect("verification should succeed");

    assert_eq!(token.iss, "https://authority.example");
    assert_eq!(verified.gid, claim.gid);
    assert_eq!(verified.workspace_name, claim.workspace_name);
    assert_eq!(verified.role, claim.role);
    assert_eq!(verified.attributes, claim.attributes);
}

#[test]
fn a_tampered_token_fails_verification() {
    let service = test_service();
    let claim = test_claim();

    let mut token = service.mint(&claim, 1_000).expect("minting should succeed");
    token.gid = "somebody-else".to_owned();

    let result = verify_token(&token, service.jwks(), 1_500);
    assert!(matches!(result, Err(Error::InvalidSignature)));
}

#[test]
fn a_token_with_a_forged_issuer_fails_verification() {
    let service = test_service();
    let claim = test_claim();

    let mut token = service.mint(&claim, 1_000).expect("minting should succeed");
    token.iss = "https://imposter.example".to_owned();

    let result = verify_token(&token, service.jwks(), 1_500);
    assert!(matches!(result, Err(Error::InvalidSignature)));
}

#[test]
fn a_token_with_an_unknown_key_id_fails_verification() {
    let service = test_service();
    let claim = test_claim();

    let mut token = service.mint(&claim, 1_000).expect("minting should succeed");
    token.kid = "rotated-away".to_owned();

    let result = verify_token(&token, service.jwks(), 1_500);
    assert!(matches!(result, Err(Error::InvalidSignature)));
}

#[test]
fn an_expired_token_is_refused() {
    let service = test_service();
    let claim = test_claim();

    let token = service.mint(&claim, 1_000).expect("minting should succeed");

    let result = verify_token(&token, service.jwks(), 1_000 + 3600);
    assert!(matches!(result, Err(Error::Expired)));
}

#[test]
fn minting_without_the_active_key_fails() {
    let jwks = JwkSet { keys: Vec::new(), active_kid: "absent".to_owned() };
    let service = TokenService::new("https://authority.example".to_owned(), 60, jwks, "absent".to_owned());

    let result = service.mint(&test_claim(), 0);
    assert!(matches!(result, Err(Error::Anyhow(_))));
}

#[test]
fn token_times_follow_the_configured_lifetime() {
    let service = test_service();
    let token = service.mint(&test_claim(), 12_345).expect("minting should succeed");
    assert_eq!(token.iat, 12_345);
    assert_eq!(token.exp, 12_345 + 3600);
    assert_eq!(token.kid, "signing");
    assert_eq!(token.tag.len(), 32);
}

#[test]
fn unconfigured_signing_material_falls_back_to_a_default_key() {
    let (set, kid) = choose_signing_material(None, None, vec![7u8; 32]);
    assert_eq!(kid, "default");
    assert_eq!(set.keys.len(), 1);
    assert_eq!(set.keys[0].kid, "default");

    let configured = JwkSet {
        keys: vec![Jwk { kid: "k1".to_owned(), secret: vec![1u8; 8] }],
        active_kid: "ignored".to_owned(),
    };
    let (set2, kid2) = choose_signing_material(Some(configured), None, Vec::new());
    assert_eq!(kid2, "default");
    assert_eq!(set2.keys.len(), 1);

    let configured = JwkSet {
        keys: vec![Jwk { kid: "k1".to_owned(), secret: vec![1u8; 8] }],
        active_kid: "ignored".to_owned(),
    };
    let (_, kid3) =
        choose_signing_material(Some(configured), Some("k1".to_owned()), Vec::new());
    assert_eq!(kid3, "k1");
}
