//! Finite, ordered lists of interesting values for data types.
//!
//! A type's shape is described once, as a record of fields or as a tagged union of
//! records, and registered. For every registered type the library then produces the
//! same list of instances on every call: the cartesian product of the candidates of
//! a record's fields, the last field varying fastest, and for a tagged union the
//! instances of its variants one variant after the other.
pub mod assembly;
pub mod engine;
pub mod laws;
pub mod product;
pub mod provider;
pub mod registry;
pub mod schema;
pub mod value;

pub use assembly::{alles_derive, DeriveInput, Field, Variant};
pub use provider::Alles;
pub use registry::Registry;
pub use schema::{
    AlternativeGen, Attribute, ConfigError, ElementType, ErrorKind, FieldAttributes, FieldSpec,
    Literal, TypeSchema, VariantSchema,
};
pub use value::Value;
