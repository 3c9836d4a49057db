//! Schema model, SQL migration parser, lint engine, schema diff and
//! migration generator for Postgres and MySQL DDL.
pub mod text;
pub mod schema;
pub mod config;
pub mod error;
pub mod diff;
pub mod migrate;
pub mod lint;
pub mod parser;
pub mod optimize;
pub mod container;
