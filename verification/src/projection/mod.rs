//! Projection definitions, JSON path evaluation on payloads, and the
//! projection language that describes read models.
pub mod codegen;
pub mod definition;
pub mod engine;
pub mod error;
pub mod language;
pub mod maps;
