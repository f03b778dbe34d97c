//! The Borsh wire format and its self-description.
//!
//! `codec` writes and reads values in the canonical byte layout: little-endian
//! integers, one-byte booleans and tags, four-byte length prefixes, and maps in
//! increasing key order. The schema side names each type's wire shape with a
//! declaration, describes its structure with a definition, and collects every
//! definition a type needs into one conflict-checked map.
pub mod codec;
pub mod definitions;
mod impls;
pub mod laws;
pub mod model;
pub mod schema;
pub mod text;

pub use definitions::Definitions;
pub use model::{Declaration, Definition, FieldName, Fields, SchemaError, VariantName};
pub use schema::{BorshSchema, BorshSchemaContainer};

