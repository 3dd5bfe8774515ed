//! A compiler that rewrites JSON Schema documents into the restricted
//! shapes accepted by large-language-model structured-output APIs.
//!
//! The passes operate on [`json::Json`], an owned JSON value model, and
//! report every rewrite through codec entries so that the divergence from
//! the input schema is fully auditable.  [`constraints`] removes the
//! keywords a target does not support; [`provider_compat`] audits the
//! finished schema against the strict OpenAI shape rules.

pub mod capability;
pub mod codec;
pub mod constraints;
pub mod json;
pub mod options;
pub mod path;
pub mod provider_compat;
