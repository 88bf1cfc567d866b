//! The configuration records assembled by the document loader, and the
//! default values of the numeric and path fields.
//!
//! The records only carry validated values; the loading itself — decoding a
//! structured document into plain strings and calling the validators — is
//! left to the surrounding, unverified layer.

use vstd::prelude::*;
use std::collections::HashMap;
use crate::path_model::{
    canonical_components, components, join, lemma_components_join, non_empty, root_marker, sep,
    sep_free,
};
use crate::token_path::TokenPath;
use crate::web_path::{has_rel_marker, is_rel_marker, valid_web_path};

verus! {

/// serde_json's JSON value type, declared so that claim maps can carry it.
/// It is relied on only as opaque data: nothing here reads inside a value.
#[verifier::external_type_specification]
#[verifier::external_body]
pub struct ExValue(serde_json::Value);

/// Top level of the daemon's configuration: the state directory and the
/// providers, each under its name.
pub struct Top {
    pub state_dir: String,
    pub providers: HashMap<String, Provider>,
}

/// One token-issuing provider: its issuer identifier, key-rotation timing,
/// and where its verification material is published.
pub struct Provider {
    pub issuer: String,
    pub keys_dir: Option<String>,
    pub key_lifespan: u64,
    pub key_publish_margin: Option<u64>,
    pub webroot: Option<String>,
    /// A path already accepted by [`crate::web_path::validate_web_path`].
    pub jwks_path: String,
    pub jwks_uri: Option<String>,
    pub claims: HashMap<String, serde_json::Value>,
    pub tokens: Vec<Token>,
}

/// One class of tokens a provider issues: where they are written and how
/// long they live.
pub struct Token {
    /// A layout accepted by [`crate::token_path::parse_token_path`].
    pub path: TokenPath,
    pub lifespan: u64,
    pub refresh: Option<u64>,
    pub nbf_margin: u64,
    pub claims: HashMap<String, serde_json::Value>,
}

/// Default state directory of the daemon.
pub fn default_state_dir() -> (d: String)
    ensures
        d@ == "/var/lib/diridp"@,
{
    String::from_str("/var/lib/diridp")
}

/// Default lifespan of a provider's signing key, in seconds: one day.
pub fn default_provider_key_lifespan() -> (n: u64)
    ensures
        n == 86400,
{
    86400
}

/// Default publication path of a provider's keys document, beneath the
/// webroot. It passes the web-path validation that a configured value
/// must pass.
pub fn default_provider_jwks_path() -> (p: String)
    ensures
        p@ == "/jwks.json"@,
        valid_web_path(p@),
{
    proof {
        lemma_default_jwks_path_valid();
    }
    String::from_str("/jwks.json")
}

/// Default lifespan of an issued token, in seconds: one hour.
pub fn default_token_lifespan() -> (n: u64)
    ensures
        n == 3600,
{
    3600
}

/// Default backdating margin of a token's not-before stamp, in seconds.
pub fn default_token_nbf_margin() -> (n: u64)
    ensures
        n == 5,
{
    5
}

/// The built-in keys-document path is itself a valid web path.
proof fn lemma_default_jwks_path_valid()
    ensures
        valid_web_path("/jwks.json"@),
{
    reveal_strlit("/jwks.json");
    reveal_strlit("jwks.json");
    let s = "/jwks.json"@;
    let t = "jwks.json"@;
    let cs = seq![root_marker(), t];
    assert(forall|j: int| 0 <= j < t.len() ==> t[j] != sep()) by {
        assert(s.len() == 10 && t.len() == 9);
        assert(forall|j: int| 0 <= j < t.len() ==> #[trigger] t[j] == s[j + 1]);
    }
    assert(canonical_components(cs)) by {
        assert(non_empty(cs[0]) && non_empty(cs[1]));
        assert(sep_free(cs[1]));
    }
    lemma_components_join(cs);
    assert(cs.drop_last() =~= seq![root_marker()]);
    assert(join(seq![root_marker()]) == root_marker());
    assert(join(cs) == root_marker() + t);
    assert(root_marker() + t =~= s);
    assert(components(s) == cs);
    assert(!has_rel_marker(s)) by {
        assert forall|i: int| 0 <= i < cs.len() implies !is_rel_marker(#[trigger] cs[i]) by {
            assert(cs[i].len() == 1 ==> cs[i][0] == sep());
            assert(seq!['.'].len() == 1 && seq!['.', '.'].len() == 2);
        }
    }
}

} // verus!
