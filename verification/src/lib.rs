//! Checks that the names of database migration files follow the Flyway
//! naming convention: a prefix letter, a version, a double underscore, a
//! description and the extension `.sql`, as in `V1__create_users.sql`.
//!
//! [`naming_checker`] holds the checks themselves: four on a single file
//! name (prefix, suffix, separator, version) and two on a whole set of names
//! (duplicate versions, skipped versions). Each check is independent of the
//! others, keeps no state, and returns either `Ok(())` or the one
//! [`error::FlywayNaimngCheckerError`] that it found.
//!
//! What each check decides is stated once, over file names as sequences of
//! characters: the rules on a single name in [`convention`], those on a set
//! of names in [`consistency`]. Every check is proved to return exactly the
//! verdict of its rule. [`laws`] holds what follows from the rules for every
//! input.

pub mod consistency;
pub mod convention;
pub mod error;
pub mod laws;
pub mod naming_checker;
pub mod sorting;
pub mod text;
