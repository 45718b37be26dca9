use flyway_naming_checker::error::FlywayNaimngCheckerError;
use flyway_naming_checker::naming_checker::{
    check_for_duplicate_versions, check_for_skipped_versions, is_valid_prefix, is_valid_sepeartor,
    is_valid_suffix, is_valid_version,
};

#[test]
fn test_valid_prefix() {
    assert_eq!(is_valid_prefix("V1__some_migration.sql"), Ok(()));
    assert_eq!(
        is_valid_prefix("X1__some_migration.sql"),
        Err(FlywayNaimngCheckerError::FlywayNamingPrefixError {
            file: "X1__some_migration.sql".to_string(),
            expected: "V".to_string(),
            found: "X".to_string(),
        })
    );
    assert_eq!(
        is_valid_prefix("v1__some_migration.sql"),
        Err(FlywayNaimngCheckerError::FlywayNamingPrefixError {
            file: "v1__some_migration.sql".to_string(),
            expected: "V".to_string(),
            found: "v".to_string(),
        })
    );
}

#[test]
fn test_valid_suffix() {
    assert_eq!(is_valid_suffix("V1__some_migration.sql"), Ok(()));
    assert_eq!(
        is_valid_suffix("V1__some_migration.sqlx"),
        Err(FlywayNaimngCheckerError::FlywayNamingSufixError {
            file: "V1__some_migration.sqlx".to_string(),
            expected: ".sql".to_owned(),
            found: "sqlx".to_owned(),
        })
    );
}

#[test]
fn test_valid_separator() {
    assert_eq!(is_valid_sepeartor("V1__some_migration.sql"), Ok(()));
    assert_eq!(
        is_valid_sepeartor("V1_some_migration.sql"),
        Err(FlywayNaimngCheckerError::FlywayNamingSeparatorError {
            file: "V1_some_migration.sql".to_string(),
        })
    );
}

#[test]
fn test_valid_version() {
    assert_eq!(is_valid_version("V1__some_migration.sql"), Ok(()));
    assert_eq!(
        is_valid_version("X1__some_migration.sql"),
        Err(FlywayNaimngCheckerError::FlywayNamingPrefixError {
            file: "X1__some_migration.sql".to_string(),
            expected: "V".to_string(),
            found: "X".to_string(),
        })
    );
    assert_eq!(
        is_valid_version("Vb__some_migration.sql"),
        Err(FlywayNaimngCheckerError::FlywayNamingVersionError {
            file: "Vb__some_migration.sql".to_string(),
            prefix: "V".to_string(),
            found: "b".to_string(),
        })
    );
}

#[test]
fn test_duplicate_versions() {
    let files = vec![
        "V1__init.sql".to_string(),
        "V2__add_table.sql".to_string(),
        "V1__duplicate.sql".to_string(),
    ];
    assert_eq!(
        check_for_duplicate_versions(&files),
        Err(FlywayNaimngCheckerError::DuplicateVersion {
            file: "V1__duplicate.sql".to_string(),
        })
    );
}

#[test]
fn test_skipped_versions() {
    let files = vec![
        "V1__init.sql".to_string(),
        "V3__add_table.sql".to_string(),
    ];
    assert_eq!(
        check_for_skipped_versions(&files),
        Err(FlywayNaimngCheckerError::SkippedVersion {
            file: "From V1 to V3".to_string(),
        })
    );
}
