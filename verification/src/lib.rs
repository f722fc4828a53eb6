//! A schema-driven configuration engine.
//!
//! A declarative schema document describes named sections and typed,
//! constrained properties.  From it a [`store::Config`] is built: a
//! validated, strongly-typed in-memory configuration store.  A
//! line-oriented configuration file is then parsed against that store,
//! coercing each textual value into the property's established type.
//! A flat language/message string table with its own delimited text
//! format lives alongside the store.

pub mod context;
pub mod laws;
pub mod msg;
pub mod num;
pub mod parser;
pub mod schema;
pub mod store;
pub mod text;
pub mod value;
