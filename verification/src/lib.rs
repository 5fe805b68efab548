//! Editor support for AYML documents: positions in the source text, the
//! document tree as the parser reports it, JSON Schema lookups for hover
//! text, and the diagnostics that schema validation produces.

pub mod text;
pub mod strings;
pub mod json;
pub mod schema;
pub mod document;
pub mod convert;
pub mod diagnostics;
pub mod locate;
pub mod store;
pub mod server;
pub mod validate;
