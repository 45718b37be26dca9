use flyway_naming_checker::error::FlywayNaimngCheckerError;
use flyway_naming_checker::naming_checker::{
    is_valid_prefix, is_valid_sepeartor, is_valid_suffix, is_valid_version,
};

fn prefix_error(file: &str, expected: &str, found: &str) -> FlywayNaimngCheckerError {
    FlywayNaimngCheckerError::FlywayNamingPrefixError {
        file: file.to_string(),
        expected: expected.to_string(),
        found: found.to_string(),
    }
}

fn suffix_error(file: &str, found: &str) -> FlywayNaimngCheckerError {
    FlywayNaimngCheckerError::FlywayNamingSufixError {
        file: file.to_string(),
        expected: ".sql".to_string(),
        found: found.to_string(),
    }
}

fn separator_error(file: &str) -> FlywayNaimngCheckerError {
    FlywayNaimngCheckerError::FlywayNamingSeparatorError { file: file.to_string() }
}

#[test]
fn prefix_accepts_the_three_letters() {
    assert_eq!(is_valid_prefix("V1__a.sql"), Ok(()));
    assert_eq!(is_valid_prefix("U1__a.sql"), Ok(()));
    assert_eq!(is_valid_prefix("R__a.sql"), Ok(()));
    assert_eq!(is_valid_prefix("V"), Ok(()));
}

#[test]
fn prefix_of_empty_name_cannot_be_found() {
    assert_eq!(
        is_valid_prefix(""),
        Err(FlywayNaimngCheckerError::FlywayNamingCanNotFindPrefix { file: String::new() })
    );
}

#[test]
fn version_of_empty_name_cannot_find_prefix() {
    assert_eq!(
        is_valid_version(""),
        Err(FlywayNaimngCheckerError::FlywayNamingCanNotFindPrefix { file: String::new() })
    );
}

#[test]
fn prefix_hints_at_lower_case_u_and_r() {
    assert_eq!(is_valid_prefix("u1__a.sql"), Err(prefix_error("u1__a.sql", "u", "u")));
    assert_eq!(is_valid_prefix("r__a.sql"), Err(prefix_error("r__a.sql", "r", "r")));
    assert_eq!(is_valid_prefix("v1__a.sql"), Err(prefix_error("v1__a.sql", "V", "v")));
}

#[test]
fn prefix_reports_every_other_upper_case_letter() {
    for letter in 'A'..='Z' {
        let name = format!("{}1__a.sql", letter);
        let found = letter.to_string();
        if letter == 'V' || letter == 'U' || letter == 'R' {
            assert_eq!(is_valid_prefix(&name), Ok(()));
            assert_eq!(is_valid_version(&name), Ok(()));
        } else {
            assert_eq!(is_valid_prefix(&name), Err(prefix_error(&name, "V", &found)));
            assert_eq!(is_valid_version(&name), Err(prefix_error(&name, "V", &found)));
        }
    }
}

#[test]
fn prefix_reports_a_character_of_several_bytes() {
    assert_eq!(is_valid_prefix("é1__a.sql"), Err(prefix_error("é1__a.sql", "V", "é")));
    assert_eq!(is_valid_version("é1__a.sql"), Err(prefix_error("é1__a.sql", "V", "é")));
    assert_eq!(is_valid_prefix("1__a.sql"), Err(prefix_error("1__a.sql", "V", "1")));
    assert_eq!(is_valid_prefix("_"), Err(prefix_error("_", "V", "_")));
}

#[test]
fn version_expects_v_even_for_lower_case_u_and_r() {
    assert_eq!(is_valid_version("u1__a.sql"), Err(prefix_error("u1__a.sql", "V", "u")));
    assert_eq!(is_valid_version("r__a.sql"), Err(prefix_error("r__a.sql", "V", "r")));
}

#[test]
fn version_wants_a_digit_behind_v_and_u() {
    assert_eq!(is_valid_version("V0"), Ok(()));
    assert_eq!(is_valid_version("U9__undo.sql"), Ok(()));
    assert_eq!(is_valid_version("V1x__a.sql"), Ok(()));
    assert_eq!(
        is_valid_version("U_1__a.sql"),
        Err(FlywayNaimngCheckerError::FlywayNamingVersionError {
            file: "U_1__a.sql".to_string(),
            prefix: "U".to_string(),
            found: "_".to_string(),
        })
    );
    assert_eq!(
        is_valid_version("Vé"),
        Err(FlywayNaimngCheckerError::FlywayNamingVersionError {
            file: "Vé".to_string(),
            prefix: "V".to_string(),
            found: "é".to_string(),
        })
    );
    assert_eq!(
        is_valid_version("V٣__a.sql"),
        Err(FlywayNaimngCheckerError::FlywayNamingVersionError {
            file: "V٣__a.sql".to_string(),
            prefix: "V".to_string(),
            found: "٣".to_string(),
        })
    );
}

#[test]
fn version_cannot_be_found_behind_a_lone_prefix() {
    assert_eq!(
        is_valid_version("V"),
        Err(FlywayNaimngCheckerError::FlywayNamingCanNotFindVersion { file: "V".to_string() })
    );
    assert_eq!(
        is_valid_version("U"),
        Err(FlywayNaimngCheckerError::FlywayNamingCanNotFindVersion { file: "U".to_string() })
    );
}

#[test]
fn version_is_not_asked_of_repeatable_migrations() {
    assert_eq!(is_valid_version("R"), Ok(()));
    assert_eq!(is_valid_version("R__views.sql"), Ok(()));
    assert_eq!(is_valid_version("Rx"), Ok(()));
}

#[test]
fn suffix_accepts_sql_behind_anything() {
    for stem in ["", "V1__a", "a.b", "..", "V1__a.SQL", "é", "x.sqlx"] {
        let name = format!("{}.sql", stem);
        assert_eq!(is_valid_suffix(&name), Ok(()));
    }
}

#[test]
fn suffix_accepts_a_name_without_dot() {
    for name in ["", "V1__a", "sql", "SQL", "V1__a_sqlx"] {
        assert_eq!(is_valid_suffix(name), Ok(()));
    }
}

#[test]
fn suffix_rejects_upper_case() {
    for stem in ["", "V1__a", "a.sql"] {
        let name = format!("{}.SQL", stem);
        assert_eq!(is_valid_suffix(&name), Err(suffix_error(&name, "SQL")));
    }
    assert_eq!(is_valid_suffix("a.Sql"), Err(suffix_error("a.Sql", "Sql")));
}

#[test]
fn suffix_reads_what_follows_the_last_dot() {
    assert_eq!(is_valid_suffix("a.sql.bak"), Err(suffix_error("a.sql.bak", "bak")));
    assert_eq!(is_valid_suffix("a."), Err(suffix_error("a.", "")));
    assert_eq!(is_valid_suffix("."), Err(suffix_error(".", "")));
    assert_eq!(is_valid_suffix("a.sq"), Err(suffix_error("a.sq", "sq")));
    assert_eq!(is_valid_suffix("a.sqll"), Err(suffix_error("a.sqll", "sqll")));
    assert_eq!(is_valid_suffix("a.xql"), Err(suffix_error("a.xql", "xql")));
    assert_eq!(is_valid_suffix("a.sxl"), Err(suffix_error("a.sxl", "sxl")));
    assert_eq!(is_valid_suffix("a.sqx"), Err(suffix_error("a.sqx", "sqx")));
    assert_eq!(is_valid_suffix("é.sqlé"), Err(suffix_error("é.sqlé", "sqlé")));
    assert_eq!(is_valid_suffix("é.é.ü"), Err(suffix_error("é.é.ü", "ü")));
}

#[test]
fn separator_passes_exactly_one() {
    for name in ["__", "V1__a.sql", "a__", "__a", "a___b", "___", "_a__b_", "é__é"] {
        assert_eq!(is_valid_sepeartor(name), Ok(()));
    }
}

#[test]
fn separator_rejects_none() {
    for name in ["", "_", "a", "V1_a.sql", "a_b_c", "_a_", "é_é"] {
        assert_eq!(is_valid_sepeartor(name), Err(separator_error(name)));
    }
}

#[test]
fn separator_rejects_two_or_more() {
    let names =
        ["____", "a__b__c", "V1__a__b.sql", "_____", "a____b", "__a__", "a___b__c", "______"];
    for name in names {
        assert_eq!(is_valid_sepeartor(name), Err(separator_error(name)));
    }
}

#[test]
fn separator_counts_as_splitting_does() {
    let pieces = ["", "_", "__", "a", "V1", "é", "_b", "c_"];
    for first in pieces {
        for second in pieces {
            for third in pieces {
                for fourth in pieces {
                    let name = format!("{}{}{}{}", first, second, third, fourth);
                    let two_parts = name.split("__").count() == 2;
                    assert_eq!(is_valid_sepeartor(&name).is_ok(), two_parts, "{:?}", name);
                }
            }
        }
    }
}

#[test]
fn checks_agree_with_themselves() {
    for name in ["", "V", "V1__a.sql", "x.SQL", "a__b__c", "u", "Vb__x"] {
        assert_eq!(is_valid_prefix(name), is_valid_prefix(name));
        assert_eq!(is_valid_suffix(name), is_valid_suffix(name));
        assert_eq!(is_valid_sepeartor(name), is_valid_sepeartor(name));
        assert_eq!(is_valid_version(name), is_valid_version(name));
    }
}
