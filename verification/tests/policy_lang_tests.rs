use nebula_backbone::claim::NebulaClaim;
use nebula_backbone::claim::Role;
use nebula_backbone::policy_lang::expression_allows;
use nebula_backbone::policy_lang::is_valid_expression;
use nebula_backbone::policy_lang::parse_policy_expression;

fn claim_with(attrs: &[(&str, &str)]) -> NebulaClaim {
    NebulaClaim {
        gid: "m@cremit.io".to_owned(),
        workspace_name: "cremit".to_owned(),
        role: Role::Member,
        attributes: attrs.iter().map(|(k, v)| (k.to_string(), v.to_string())).collect(),
    }
}

#[test]
fn well_formed_expressions_parse() {
    for good in [
        "\"role=FRONTEND\"",
        "(\"role=FRONTEND\")",
        "(\"role=FRONTEND@A\")",
        "\"a=1\" and \"b=2\"",
        "\"a=1\" or \"b=2\" and \"c=3\"",
        "((\"a=1\" or \"b=2\") and \"c=3\")",
    ] {
        assert!(is_valid_expression(good), "expression {:?}", good);
    }
}

#[test]
fn malformed_expressions_are_refused() {
    for bad in [
        "",
        "(\"role=FRONTEND@A\"",
        "\"role=FRONTEND@A\")",
        "and",
        "\"a=1\" and",
        "\"a=1\" \"b=2\"",
        "\"unterminated",
        "xor",
        "( )",
    ] {
        assert!(!is_valid_expression(bad), "expression {:?}", bad);
    }
}

#[test]
fn predicates_match_attribute_bindings_exactly() {
    let e = parse_policy_expression("\"role=FRONTEND@A\"").expect("the expression parses");

    let yes = claim_with(&[("role", "FRONTEND@A")]);
    assert!(expression_allows(&e, &yes));

    let wrong_value = claim_with(&[("role", "BACKEND@A")]);
    assert!(!expression_allows(&e, &wrong_value));

    let empty = claim_with(&[]);
    assert!(!expression_allows(&e, &empty));
}

#[test]
fn conjunction_and_disjunction_follow_boolean_rules() {
    let e = parse_policy_expression("(\"a=1\" and \"b=2\") or \"c=3\"")
        .expect("the expression parses");

    assert!(expression_allows(&e, &claim_with(&[("a", "1"), ("b", "2")])));
    assert!(expression_allows(&e, &claim_with(&[("c", "3")])));
    assert!(!expression_allows(&e, &claim_with(&[("a", "1")])));
    assert!(!expression_allows(&e, &claim_with(&[])));
}

#[test]
fn a_predicate_without_an_equals_sign_holds_of_no_claim() {
    let e = parse_policy_expression("\"justaword\"").expect("the expression parses");
    assert!(!expression_allows(&e, &claim_with(&[("justaword", "")])));
}

#[test]
fn the_first_binding_of_a_name_wins() {
    let e = parse_policy_expression("\"k=first\"").expect("the expression parses");
    let claim = claim_with(&[("k", "first"), ("k", "second")]);
    assert!(expression_allows(&e, &claim));

    let e2 = parse_policy_expression("\"k=second\"").expect("the expression parses");
    assert!(!expression_allows(&e2, &claim));
}
