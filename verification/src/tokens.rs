use vstd::prelude::*;
use crate::datalog::sources_view;

verus! {

/// The printed block sources of a capability token that verifies under the
/// given Ed25519 root public key, authority block first; nothing when the
/// key bytes are not a valid key, the token bytes do not deserialize, or the
/// block signature chain fails under that key. The token library computes
/// this from the two byte strings alone, so the outcome is a pure function
/// of them.
pub uninterp spec fn chain_sources(root_key: Seq<u8>, token: Seq<u8>) -> Option<Seq<Seq<u8>>>;

/// Relies on biscuit_auth::PublicKey::from_bytes (Ed25519),
/// biscuit_auth::Biscuit::from — which deserializes a token and validates
/// its block signature chain against the root public key — and
/// biscuit_auth::Biscuit::print_block_source, which prints one block of the
/// verified token as rule source text. Any failure yields nothing; the
/// printed indices stay below `block_count`, the bound the token library
/// documents. The result is `chain_sources` of the two inputs.
#[verifier::external_body]
pub(crate) fn verified_block_sources(root_key: &[u8], token: &[u8]) -> (r: Option<Vec<Vec<u8>>>)
    ensures
        r is Some <==> chain_sources(root_key@, token@) is Some,
        r matches Some(v) ==> chain_sources(root_key@, token@) matches Some(ss) && sources_view(v@)
            == ss,
{
    let key = biscuit_auth::PublicKey::from_bytes(root_key, biscuit_auth::Algorithm::Ed25519)
        .ok()?;
    let tok = biscuit_auth::Biscuit::from(token, key).ok()?;
    let mut out = Vec::new();
    for i in 0..tok.block_count() {
        out.push(tok.print_block_source(i).ok()?.into_bytes());
    }
    Some(out)
}

} // verus!
