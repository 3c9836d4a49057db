//! Errors of the parser and the lint engine.
use vstd::prelude::*;

verus! {

/// `std::path::Path`, carried through as the name of a migration file.
#[verifier::external_type_specification]
#[verifier::external_body]
pub struct ExPath(std::path::Path);

/// `std::path::PathBuf`, the path a parse error refers to.
#[verifier::external_type_specification]
#[verifier::external_body]
pub struct ExPathBuf(std::path::PathBuf);

/// `std::io::Error`, the cause of a failed read.
#[verifier::external_type_specification]
#[verifier::external_body]
pub struct ExIoError(std::io::Error);

/// Errors from parsing SQL migration files.
#[derive(Debug)]
pub enum ParseError {
    /// A migration file could not be read.
    ReadFile { path: std::path::PathBuf, source: std::io::Error },
    /// A statement could not be parsed.
    Sql { file: std::path::PathBuf, line: usize, message: String },
    /// A statement is not supported.
    UnsupportedStatement { file: std::path::PathBuf, statement: String },
    /// The migration directory does not exist.
    DirectoryNotFound(std::path::PathBuf),
    /// The migration directory holds no `.sql` files.
    NoMigrations(std::path::PathBuf),
}

/// Errors from the lint engine.
#[derive(Debug)]
pub enum LintError {
    /// A rule name that no rule has.
    UnknownRule(String),
    /// A configuration value that cannot be used.
    Config(String),
}

} // verus!
