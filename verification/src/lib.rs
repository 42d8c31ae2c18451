//! A GraphQL schema reader that turns schema text into plain data records.
pub mod text;
pub mod patterns;
pub mod types;
pub mod selection;
pub mod directives;
pub mod syntax;
pub mod fields;
pub mod process;
pub mod enum_values;
pub mod definitions;
pub mod schema;
pub mod logger;
pub mod laws;
pub mod reader_laws;
