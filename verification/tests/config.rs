use std::collections::HashMap;

use diridp_config::config::{
    default_provider_jwks_path, default_provider_key_lifespan, default_state_dir,
    default_token_lifespan, default_token_nbf_margin, Provider, Token, Top,
};
use diridp_config::token_path::{parse_token_path, TokenPath};
use diridp_config::web_path::validate_web_path;

#[test]
fn default_values() {
    assert_eq!(default_state_dir(), "/var/lib/diridp");
    assert_eq!(default_provider_key_lifespan(), 86400);
    assert_eq!(default_provider_jwks_path(), "/jwks.json");
    assert_eq!(default_token_lifespan(), 3600);
    assert_eq!(default_token_nbf_margin(), 5);
}

#[test]
fn default_jwks_path_passes_validation() {
    let p = default_provider_jwks_path();
    assert_eq!(validate_web_path(&p), Ok(p));
}

#[test]
fn records_carry_validated_values() {
    let jwks_path = validate_web_path("/oidc/jwks.json").expect("a valid web path");
    let path = parse_token_path("tokens/:sub/token.jwt").expect("a valid token path");

    let mut claims: HashMap<String, serde_json::Value> = HashMap::new();
    claims.insert(
        "aud".to_string(),
        serde_json::Value::String("sts.example.org".to_string()),
    );

    let token = Token {
        path,
        lifespan: default_token_lifespan(),
        refresh: None,
        nbf_margin: default_token_nbf_margin(),
        claims,
    };
    let provider = Provider {
        issuer: "https://idp.example.org".to_string(),
        keys_dir: None,
        key_lifespan: default_provider_key_lifespan(),
        key_publish_margin: Some(600),
        webroot: Some("/srv/www".to_string()),
        jwks_path,
        jwks_uri: None,
        claims: HashMap::new(),
        tokens: vec![token],
    };
    let mut providers = HashMap::new();
    providers.insert("main".to_string(), provider);
    let top = Top { state_dir: default_state_dir(), providers };

    let provider = &top.providers["main"];
    assert_eq!(provider.jwks_path, "/oidc/jwks.json");
    assert_eq!(provider.tokens.len(), 1);
    match &provider.tokens[0].path {
        TokenPath::Directories { parent_dir, claim_name, filename } => {
            assert_eq!(parent_dir, "tokens");
            assert_eq!(claim_name, "sub");
            assert_eq!(filename, "token.jwt");
        }
        TokenPath::SingleFile { .. } => panic!("expected a directories layout"),
    }
    assert_eq!(
        provider.tokens[0].claims["aud"],
        serde_json::Value::String("sts.example.org".to_string())
    );
}
