use biscuit_auth::builder::{check, fact, pred, string, CheckKind};
use biscuit_auth::{Biscuit, BlockBuilder, KeyPair};
use eventgate::capability::{can_view, AuthConfig, PolicyMode};

fn base_token(root: &KeyPair) -> Biscuit {
    Biscuit::builder()
        .fact(fact("right", &[string("event"), string("view")]))
        .unwrap()
        .build(root)
        .unwrap()
}

fn view_token(root: &KeyPair) -> Vec<u8> {
    let block = BlockBuilder::new()
        .check(check(
            &[
                pred("resource", &[string("event")]),
                pred("operation", &[string("view")]),
            ],
            CheckKind::One,
        ))
        .unwrap();
    base_token(root)
        .append(block)
        .unwrap()
        .to_vec()
        .unwrap()
}

fn nope_token(root: &KeyPair) -> Vec<u8> {
    let block = BlockBuilder::new()
        .check(check(
            &[
                pred("resource", &[string("SOMETHING_ELSE")]),
                pred("operation", &[string("view")]),
            ],
            CheckKind::One,
        ))
        .unwrap();
    base_token(root)
        .append(block)
        .unwrap()
        .to_vec()
        .unwrap()
}

fn cfg_for(root: &KeyPair) -> AuthConfig {
    AuthConfig {
        mode: PolicyMode::CapabilityChain,
        root_key: root.public().to_bytes(),
    }
}

#[test]
fn view_caveat_verifies_against_matching_root() {
    let root = KeyPair::new();
    let token = Some(view_token(&root));
    let policy = Some(b"\"view\"".to_vec());
    assert!(can_view(&cfg_for(&root), &token, &policy));
}

#[test]
fn view_caveat_fails_against_other_root() {
    let root = KeyPair::new();
    let other = KeyPair::new();
    let token = Some(view_token(&root));
    let policy = Some(b"\"view\"".to_vec());
    assert!(!can_view(&cfg_for(&other), &token, &policy));
}

#[test]
fn mismatched_resource_fails_even_with_matching_operation() {
    let root = KeyPair::new();
    let token = Some(nope_token(&root));
    let policy = Some(b"\"view\"".to_vec());
    assert!(!can_view(&cfg_for(&root), &token, &policy));
}

#[test]
fn view_caveat_denies_other_operation() {
    let root = KeyPair::new();
    let token = Some(view_token(&root));
    let policy = Some(b"\"write\"".to_vec());
    assert!(!can_view(&cfg_for(&root), &token, &policy));
}

#[test]
fn garbage_token_bytes_deny() {
    let root = KeyPair::new();
    let token = Some(b"not a token".to_vec());
    let policy = Some(b"\"view\"".to_vec());
    assert!(!can_view(&cfg_for(&root), &token, &policy));
}

#[test]
fn caveatless_base_token_verifies() {
    let root = KeyPair::new();
    let token = Some(base_token(&root).to_vec().unwrap());
    let policy = Some(b"\"view\"".to_vec());
    assert!(can_view(&cfg_for(&root), &token, &policy));
}
