//! Catalog of media files under a root directory: a hierarchical file-type
//! classification engine (primitive and composite categories compiled into
//! extension matchers), an ignore-aware directory listing adapter, and a
//! cache-aside content-fingerprint store.

pub mod args;
pub mod files;
pub mod fingerprint;
pub mod matcher;
pub mod registry;
pub mod text;
pub mod utils;
