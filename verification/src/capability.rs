use vstd::prelude::*;
use crate::authz::{policy_operation, spec_policy_operation};
use crate::bytes::bytes_eq;
use crate::datalog::{authorize_sources, sources_authorize};
use crate::tokens::{chain_sources, verified_block_sources};

verus! {

/// How event policies are enforced; selected once at startup and applied
/// uniformly to every emitted event.
#[derive(Clone, Copy, PartialEq, Eq, Structural, Debug)]
pub enum PolicyMode {
    /// Every event is public; credentials are ignored.
    Public,
    /// The presented credential must equal the policy value byte for byte;
    /// for deployments without cryptographic verification configured.
    BearerEquality,
    /// The capability-chain scheme: a self-contained signed token whose
    /// caveats must all hold against the ambient facts.
    CapabilityChain,
}

/// The immutable verification configuration: the policy mode, and the root
/// public key every capability token must chain from. It is passed into
/// every verification call rather than held as ambient state.
pub struct AuthConfig {
    pub mode: PolicyMode,
    pub root_key: Vec<u8>,
}

/// The capability-chain decision: the token's block signature chain is valid
/// under the root key, and every caveat of every block holds against the
/// authority facts together with the ambient facts for `op` — one failing
/// caveat anywhere, or any structural or cryptographic failure, denies.
pub open spec fn chain_admits(root_key: Seq<u8>, token: Seq<u8>, op: Seq<u8>) -> bool {
    match chain_sources(root_key, token) {
        None => false,
        Some(ss) => sources_authorize(ss, op),
    }
}

/// Decides whether the holder of `token` may see an event guarded by
/// `policy`. It never raises: every failure mode — absent credential,
/// undecodable token, broken signature chain, unparsable block or policy,
/// unsatisfied caveat — resolves to deny. An absent policy is public. In the
/// capability mode the decision is exactly: the token's signature chain
/// verifies under the configured root key, and every caveat of every block
/// holds against the authority facts plus the ambient facts.
pub fn can_view(cfg: &AuthConfig, token: &Option<Vec<u8>>, policy: &Option<Vec<u8>>) -> (r: bool)
    ensures
        policy is None ==> r,
        cfg.mode is Public ==> r,
        !(cfg.mode is Public) && policy is Some && token is None ==> !r,
        policy matches Some(p) ==> token matches Some(t) ==> cfg.mode is BearerEquality ==> r == (
        t@ == p@),
        policy matches Some(p) ==> token is Some ==> cfg.mode is CapabilityChain
            ==> spec_policy_operation(p@) is None ==> !r,
        policy matches Some(p) ==> token matches Some(t) ==> cfg.mode is CapabilityChain ==> (
        spec_policy_operation(p@) matches Some(op) ==> r == chain_admits(cfg.root_key@, t@, op)),
{
    match policy {
        None => true,
        Some(p) => match cfg.mode {
            PolicyMode::Public => true,
            PolicyMode::BearerEquality => match token {
                None => false,
                Some(t) => bytes_eq(t.as_slice(), p.as_slice()),
            },
            PolicyMode::CapabilityChain => match token {
                None => false,
                Some(t) => match policy_operation(p.as_slice()) {
                    None => false,
                    Some(op) => chain_decision(cfg.root_key.as_slice(), t, &op),
                },
            },
        },
    }
}

/// The capability-chain decision: the token's signature chain must verify
/// under the root key, and the caveat evaluator must accept every caveat of
/// every printed block against the ambient operation.
fn chain_decision(root_key: &[u8], token: &Vec<u8>, op: &Vec<u8>) -> (r: bool)
    ensures
        r == chain_admits(root_key@, token@, op@),
{
    match verified_block_sources(root_key, token.as_slice()) {
        None => false,
        Some(sources) => authorize_sources(&sources, op),
    }
}

} // verus!
