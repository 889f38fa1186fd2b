use eventgate::authz::policy_operation;
use eventgate::capability::{can_view, AuthConfig, PolicyMode};
use eventgate::datalog::authorize_sources;

fn chain_cfg() -> AuthConfig {
    AuthConfig {
        mode: PolicyMode::CapabilityChain,
        root_key: vec![0u8; 32],
    }
}

#[test]
fn absent_policy_is_public_for_any_token() {
    for mode in [
        PolicyMode::Public,
        PolicyMode::BearerEquality,
        PolicyMode::CapabilityChain,
    ] {
        let cfg = AuthConfig {
            mode,
            root_key: vec![0u8; 32],
        };
        assert!(can_view(&cfg, &None, &None));
        assert!(can_view(&cfg, &Some(b"anything".to_vec()), &None));
    }
}

#[test]
fn present_policy_absent_token_denies() {
    for mode in [PolicyMode::BearerEquality, PolicyMode::CapabilityChain] {
        let cfg = AuthConfig {
            mode,
            root_key: vec![0u8; 32],
        };
        assert!(!can_view(&cfg, &None, &Some(b"\"view\"".to_vec())));
    }
}

#[test]
fn public_mode_ignores_policies() {
    let cfg = AuthConfig {
        mode: PolicyMode::Public,
        root_key: vec![],
    };
    assert!(can_view(&cfg, &None, &Some(b"\"view\"".to_vec())));
}

#[test]
fn bearer_equality_compares_bytes() {
    let cfg = AuthConfig {
        mode: PolicyMode::BearerEquality,
        root_key: vec![],
    };
    let policy = Some(b"shared-secret".to_vec());
    assert!(can_view(&cfg, &Some(b"shared-secret".to_vec()), &policy));
    assert!(!can_view(&cfg, &Some(b"wrong-secret".to_vec()), &policy));
}

#[test]
fn malformed_policy_denies() {
    // Valid documents that are not quoted strings, and broken documents,
    // all deny in the capability mode.
    for p in [
        &b"view"[..],
        b"{\"op\":\"view\"}",
        b"\"unterminated",
        b"\"bad \\u00zz escape\"",
        b"\"truncated \\u00",
        b"\"beyond ascii \\u00e9\"",
        b"",
    ] {
        assert!(!can_view(
            &chain_cfg(),
            &Some(b"some token".to_vec()),
            &Some(p.to_vec())
        ));
    }
}

#[test]
fn policy_operation_unquotes() {
    assert_eq!(policy_operation(b"\"view\""), Some(b"view".to_vec()));
    assert_eq!(policy_operation(b"  \"view\"\n"), Some(b"view".to_vec()));
    assert_eq!(
        policy_operation(b"\"a \\\"quoted\\\" op\""),
        Some(b"a \"quoted\" op".to_vec())
    );
    // A \uXXXX escape of a code point below 0x80 names that byte.
    assert_eq!(policy_operation(b"\"\\u0076iew\""), Some(b"view".to_vec()));
    assert_eq!(policy_operation(b"view"), None);
    assert_eq!(policy_operation(b"\"view\" x"), None);
}

#[test]
fn authorize_sources_accepts_satisfied_caveats() {
    let sources = vec![
        b"right(\"event\", \"view\");\n".to_vec(),
        b"check if resource(\"event\"), operation(\"view\");\n".to_vec(),
    ];
    assert!(authorize_sources(&sources, &b"view".to_vec()));
}

#[test]
fn authorize_sources_denies_wrong_operation() {
    let sources = vec![
        b"right(\"event\", \"view\");\n".to_vec(),
        b"check if resource(\"event\"), operation(\"view\");\n".to_vec(),
    ];
    assert!(!authorize_sources(&sources, &b"write".to_vec()));
}

#[test]
fn authorize_sources_denies_mismatched_resource() {
    let sources = vec![
        b"right(\"event\", \"view\");\n".to_vec(),
        b"check if resource(\"SOMETHING_ELSE\"), operation(\"view\");\n".to_vec(),
    ];
    assert!(!authorize_sources(&sources, &b"view".to_vec()));
}

#[test]
fn authorize_sources_denies_unparsable_block() {
    // A rule is outside the closed language, so the block denies.
    let sources = vec![b"caveat(\"x\") <- resource(\"event\");\n".to_vec()];
    assert!(!authorize_sources(&sources, &b"view".to_vec()));
    // So does an empty chain.
    assert!(!authorize_sources(&vec![], &b"view".to_vec()));
}

#[test]
fn authorize_sources_caveatless_chain_accepts() {
    let sources = vec![b"right(\"event\", \"view\");\n".to_vec()];
    assert!(authorize_sources(&sources, &b"anything".to_vec()));
}
