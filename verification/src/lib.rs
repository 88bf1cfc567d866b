//! Configuration model for a directory-based identity-provider daemon.
//!
//! The core of this crate is the pair of path checkers that turn raw,
//! user-supplied path strings into typed, validated layout descriptors:
//!
//! * [`web_path::validate_web_path`] accepts only absolute paths free of
//!   relative components, so that the result can be appended to a webroot
//!   without escaping it;
//! * [`token_path::parse_token_path`] classifies a token output path as a
//!   single fixed file or as a per-claim-value directory layout, driven by a
//!   single `:name` placeholder component.
//!
//! Both work on an explicit, forward-slash path model defined in
//! [`path_model`], independent of the operating system's own path semantics.

pub mod config;
pub mod path_model;
pub mod split;
pub mod token_path;
pub mod web_path;

pub use config::{
    default_provider_jwks_path, default_provider_key_lifespan, default_state_dir,
    default_token_lifespan, default_token_nbf_margin, Provider, Token, Top,
};
pub use token_path::{parse_token_path, InvalidTokenPath, TokenPath};
pub use web_path::{validate_web_path, InvalidPath};
