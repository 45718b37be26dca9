//! The checks on single file names and on whole sets of them.

use crate::consistency::{
    duplicate_verdict, gap_text, is_gap, lemma_duplicate_verdict_at, lemma_gap_verdict_at,
    repeats_version, skipped_verdict, texts, versions_of,
};
use crate::convention::{
    decimal_value, extension, from_first_digit, is_digit, is_first_separator, is_prefix_letter,
    lemma_extension_at, lemma_first_separator_at, parsed_version, prefix_verdict, separator_at,
    separator_count, separator_verdict, separators_from, suffix_verdict, suggested_prefix,
    version_of, version_verdict,
};
use crate::error::{verdict_of, FlywayNaimngCheckerError};
use crate::sorting::{in_ascending_order, sort_ascending};
use crate::text::{char_text, chars_of, decimal_string};
use std::collections::HashSet;
use vstd::prelude::*;

verus! {

/// Tells whether `c` is one of the ten ASCII digits.
fn is_ascii_digit(c: char) -> (digit: bool)
    ensures
        digit == is_digit(c),
{
    '0' <= c && c <= '9'
}

/// Checks that `file_name` opens with `V`, `U` or `R`, in upper case.
///
/// # Errors
///
/// - `FlywayNamingCanNotFindPrefix` where the name is empty.
/// - `FlywayNamingPrefixError` where it opens with any other character. The
///   error holds this character as `found` and, as `expected`, the prefix
///   that was most likely meant: `u` and `r` stand for themselves, every
///   other character for `V`.
pub fn is_valid_prefix(file_name: &str) -> (result: Result<(), FlywayNaimngCheckerError>)
    ensures
        verdict_of(result) == prefix_verdict(file_name@),
        result is Ok <==> file_name@.len() > 0 && is_prefix_letter(file_name@[0]),
{
    let mut chars = file_name.chars();
    match chars.next() {
        Some(prefix) => {
            if prefix == 'V' || prefix == 'U' || prefix == 'R' {
                Ok(())
            } else {
                let expected = if prefix == 'u' {
                    "u"
                } else if prefix == 'r' {
                    "r"
                } else {
                    "V"
                };
                proof {
                    reveal_strlit("u");
                    reveal_strlit("r");
                    reveal_strlit("V");
                    assert(expected@ =~= suggested_prefix(prefix));
                }
                Err(
                    FlywayNaimngCheckerError::FlywayNamingPrefixError {
                        file: file_name.to_string(),
                        expected: expected.to_string(),
                        found: char_text(file_name, 0),
                    },
                )
            }
        },
        None => Err(
            FlywayNaimngCheckerError::FlywayNamingCanNotFindPrefix { file: file_name.to_string() },
        ),
    }
}

/// Checks that a `V` or `U` prefix is followed by a digit.
///
/// A name that opens with `R` passes as it is: repeatable migrations carry
/// no version. The check looks at the first two characters only.
///
/// # Errors
///
/// - `FlywayNamingCanNotFindPrefix` where the name is empty.
/// - `FlywayNamingCanNotFindVersion` where the name is `V` or `U` and
///   nothing more.
/// - `FlywayNamingVersionError` where `V` or `U` is followed by a character
///   that is no ASCII digit; the error holds the prefix and this character.
/// - `FlywayNamingPrefixError` where the name opens with anything but `V`,
///   `U` and `R`; here the prefix `expected` is always `V`.
pub fn is_valid_version(file_name: &str) -> (result: Result<(), FlywayNaimngCheckerError>)
    ensures
        verdict_of(result) == version_verdict(file_name@),
        result is Ok <==> file_name@.len() > 0 && (file_name@[0] == 'R' || ((file_name@[0] == 'V'
            || file_name@[0] == 'U') && file_name@.len() > 1 && is_digit(file_name@[1]))),
{
    let mut chars = file_name.chars();
    match chars.next() {
        Some(first_char) => {
            if first_char == 'V' || first_char == 'U' {
                match chars.next() {
                    Some(second_char) => {
                        if is_ascii_digit(second_char) {
                            Ok(())
                        } else {
                            Err(
                                FlywayNaimngCheckerError::FlywayNamingVersionError {
                                    file: file_name.to_string(),
                                    prefix: char_text(file_name, 0),
                                    found: char_text(file_name, 1),
                                },
                            )
                        }
                    },
                    None => Err(
                        FlywayNaimngCheckerError::FlywayNamingCanNotFindVersion {
                            file: file_name.to_string(),
                        },
                    ),
                }
            } else if first_char == 'R' {
                Ok(())
            } else {
                proof {
                    reveal_strlit("V");
                    assert("V"@ =~= seq!['V']);
                }
                Err(
                    FlywayNaimngCheckerError::FlywayNamingPrefixError {
                        file: file_name.to_string(),
                        expected: "V".to_string(),
                        found: char_text(file_name, 0),
                    },
                )
            }
        },
        None => Err(
            FlywayNaimngCheckerError::FlywayNamingCanNotFindPrefix { file: file_name.to_string() },
        ),
    }
}

/// Checks that what follows the last `.` of `file_name` is `sql`, in lower
/// case.
///
/// A name without a `.` makes no claim about its kind and passes.
///
/// # Errors
///
/// `FlywayNamingSufixError` where anything else follows the last `.`; the
/// error holds what follows it as `found`, and `.sql` as `expected`.
pub fn is_valid_suffix(file_name: &str) -> (result: Result<(), FlywayNaimngCheckerError>)
    ensures
        verdict_of(result) == suffix_verdict(file_name@),
        result is Ok <==> extension(file_name@) == None::<Seq<char>> || extension(file_name@)
            == Some("sql"@),
{
    let name = chars_of(file_name);
    let mut at: usize = name.len();
    while at > 0 && name[at - 1] != '.'
        invariant
            at <= name.len(),
            forall|after: int| at <= after < name.len() ==> name@[after] != '.',
        decreases at,
    {
        at -= 1;
    }
    if at == 0 {
        return Ok(());
    }
    let ghost found = name@.skip(at as int);
    proof {
        lemma_extension_at(name@, at - 1);
        reveal_strlit("sql");
    }
    if name.len() - at == 3 && name[at] == 's' && name[at + 1] == 'q' && name[at + 2] == 'l' {
        assert(found =~= "sql"@);
        Ok(())
    } else {
        let suffix = file_name.substring_char(at, name.len()).to_string();
        assert(found != "sql"@) by {
            if found.len() == 3 {
                assert(found[0] == name@[at as int]);
                assert(found[1] == name@[at + 1]);
                assert(found[2] == name@[at + 2]);
            }
        }
        Err(
            FlywayNaimngCheckerError::FlywayNamingSufixError {
                file: file_name.to_string(),
                expected: ".sql".to_string(),
                found: suffix,
            },
        )
    }
}

/// The separators found in a file name.
struct Separators {
    /// How many there are.
    count: usize,
    /// Where the leftmost starts, if there is any.
    first: usize,
}

/// Counts the separators of `name` and finds the leftmost one.
fn scan_separators(name: &Vec<char>) -> (found: Separators)
    ensures
        found.count == separator_count(name@),
        found.count > 0 ==> is_first_separator(name@, found.first as int),
{
    let mut count: usize = 0;
    let mut first: usize = 0;
    let mut at: usize = 0;
    while name.len() - at >= 2
        invariant
            at <= name.len(),
            count <= at,
            separator_count(name@) == count + separators_from(name@, at as int),
            count == 0 ==> forall|before: int| 0 <= before < at ==> !separator_at(name@, before),
            count > 0 ==> is_first_separator(name@, first as int),
        decreases name.len() - at,
    {
        if name[at] == '_' && name[at + 1] == '_' {
            if count == 0 {
                first = at;
            }
            count += 1;
            at += 2;
        } else {
            at += 1;
        }
    }
    Separators { count, first }
}

/// Checks that `file_name` holds exactly one `__`, so that the separator
/// cuts it into two parts.
///
/// The name is read from left to right, and an underscore belongs to one
/// separator at most: `a___b` holds one separator, `a____b` holds two.
///
/// # Errors
///
/// `FlywayNamingSeparatorError` where the name holds no separator, or more
/// than one.
pub fn is_valid_sepeartor(file_name: &str) -> (result: Result<(), FlywayNaimngCheckerError>)
    ensures
        verdict_of(result) == separator_verdict(file_name@),
        result is Ok <==> separator_count(file_name@) == 1,
{
    let name = chars_of(file_name);
    if scan_separators(&name).count != 1 {
        Err(FlywayNaimngCheckerError::FlywayNamingSeparatorError { file: file_name.to_string() })
    } else {
        Ok(())
    }
}

/// A digit string never spells less than one of its beginnings.
proof fn lemma_decimal_value_grows(digits: Seq<char>, len: int)
    requires
        0 <= len <= digits.len(),
    ensures
        decimal_value(digits.take(len)) <= decimal_value(digits),
    decreases digits.len(),
{
    if len == digits.len() {
        assert(digits.take(len) =~= digits);
    } else {
        lemma_decimal_value_grows(digits.drop_last(), len);
        assert(digits.drop_last().take(len) =~= digits.take(len));
    }
}

/// Reads the version in `text[..end]`: the number that follows the leading
/// characters that are no digits.
fn read_version(text: &Vec<char>, end: usize) -> (version: Option<u32>)
    requires
        end <= text.len(),
    ensures
        version == parsed_version(from_first_digit(text@.take(end as int))),
{
    let ghost head = text@.take(end as int);
    let mut start: usize = 0;
    assert(head.skip(0) =~= head);
    while start < end && !is_ascii_digit(text[start])
        invariant
            start <= end <= text.len(),
            head == text@.take(end as int),
            from_first_digit(head) == from_first_digit(head.skip(start as int)),
        decreases end - start,
    {
        assert(head.skip(start as int).drop_first() =~= head.skip(start + 1));
        start += 1;
    }
    let ghost digits = head.skip(start as int);
    if start == end {
        return None;
    }
    let mut value: u64 = 0;
    let mut at: usize = start;
    while at < end
        invariant
            start <= at <= end <= text.len(),
            head == text@.take(end as int),
            digits == head.skip(start as int),
            digits == from_first_digit(head),
            forall|i: int| 0 <= i < at - start ==> is_digit(#[trigger] digits[i]),
            value == decimal_value(digits.take(at - start)),
            value <= u32::MAX,
        decreases end - at,
    {
        let c = text[at];
        if !is_ascii_digit(c) {
            assert(!is_digit(digits[at - start]));
            return None;
        }
        assert(digits.take(at + 1 - start).drop_last() =~= digits.take(at - start));
        value = value * 10 + (c as u32 - '0' as u32) as u64;
        at += 1;
        if value > u32::MAX as u64 {
            proof {
                lemma_decimal_value_grows(digits, at - start);
            }
            return None;
        }
    }
    assert(digits.take(at - start) =~= digits);
    Some(value as u32)
}

/// The version that `file_name` carries, if it carries one.
///
/// The version is the number in front of the separator. It is read
/// leniently: whatever stands in front of its first digit is passed over, be
/// it a prefix letter or not. There is no version where the name does not
/// hold exactly one separator, where no digit stands in front of it, where
/// anything but digits follows the first digit, or where the number does not
/// fit 32 bits.
pub fn extract_version(file_name: &str) -> (version: Option<u32>)
    ensures
        version == version_of(file_name@),
{
    let name = chars_of(file_name);
    let separators = scan_separators(&name);
    if separators.count != 1 {
        return None;
    }
    proof {
        lemma_first_separator_at(name@, separators.first as int);
    }
    read_version(&name, separators.first)
}

/// Checks that no two files carry the same version.
///
/// A file without a version takes no part: it neither repeats a version nor
/// can its own be repeated.
///
/// # Errors
///
/// `DuplicateVersion` where two files carry the same version. The files are
/// taken in the order given, and the error names the first file whose
/// version an earlier file carries already.
pub fn check_for_duplicate_versions(file_names: &[String]) -> (result: Result<
    (),
    FlywayNaimngCheckerError,
>)
    ensures
        verdict_of(result) == duplicate_verdict(texts(file_names@)),
        result is Ok <==> forall|at: int| !repeats_version(texts(file_names@), at),
{
    let ghost names = texts(file_names@);
    let mut versions: HashSet<u32> = HashSet::new();
    let mut at: usize = 0;
    while at < file_names.len()
        invariant
            at <= file_names.len(),
            names == texts(file_names@),
            forall|version: u32|
                versions@.contains(version) <==> exists|earlier: int|
                    0 <= earlier < at && version_of(#[trigger] names[earlier]) == Some(version),
            forall|before: int| 0 <= before < at ==> !repeats_version(names, before),
        decreases file_names.len() - at,
    {
        let file_name = &file_names[at];
        if let Some(version) = extract_version(file_name.as_str()) {
            if !versions.insert(version) {
                proof {
                    lemma_duplicate_verdict_at(names, at as int);
                }
                return Err(FlywayNaimngCheckerError::DuplicateVersion { file: file_name.clone() });
            }
        }
        at += 1;
    }
    Ok(())
}

/// The text that reports the gap between `lower` and `upper`.
fn gap_message(lower: u32, upper: u32) -> (message: String)
    ensures
        message@ == gap_text(lower, upper),
{
    let mut message = "From V".to_string();
    message.append(decimal_string(lower).as_str());
    message.append(" to V");
    message.append(decimal_string(upper).as_str());
    message
}

/// Checks that the versions of the files, put in ascending order, go up one
/// by one.
///
/// The order in which the files are given plays no part, and neither does a
/// file without a version. The versions need not start at 1.
///
/// # Errors
///
/// `SkippedVersion` where two neighbouring versions are not one apart. The
/// error reports the first such pair, as `From V1 to V3`.
///
/// Two files with the same version make such a pair too, so that a set of
/// files that fails [`check_for_duplicate_versions`] fails this check as
/// well. The two checks are kept independent of each other all the same:
/// either can be run without the other.
pub fn check_for_skipped_versions(file_names: &[String]) -> (result: Result<
    (),
    FlywayNaimngCheckerError,
>)
    ensures
        verdict_of(result) == skipped_verdict(texts(file_names@)),
        result is Ok <==> forall|at: int|
            !is_gap(in_ascending_order(versions_of(texts(file_names@))), at),
{
    let ghost names = texts(file_names@);
    let mut versions: Vec<u32> = Vec::new();
    let mut at: usize = 0;
    while at < file_names.len()
        invariant
            at <= file_names.len(),
            names == texts(file_names@),
            versions@ == versions_of(names.take(at as int)),
        decreases file_names.len() - at,
    {
        assert(names.take(at + 1).drop_last() =~= names.take(at as int));
        if let Some(version) = extract_version(file_names[at].as_str()) {
            versions.push(version);
        }
        at += 1;
    }
    assert(names.take(at as int) =~= names);

    let sorted = sort_ascending(versions.as_slice());
    let mut at: usize = 0;
    while sorted.len() - at >= 2
        invariant
            at <= sorted.len(),
            sorted@ == in_ascending_order(versions_of(texts(file_names@))),
            forall|before: int| 0 <= before < at ==> !is_gap(sorted@, before),
        decreases sorted.len() - at,
    {
        let lower = sorted[at];
        let upper = sorted[at + 1];
        // The greatest version has no successor: whatever follows it leaves a gap.
        if lower == u32::MAX || upper != lower + 1 {
            proof {
                lemma_gap_verdict_at(sorted@, at as int);
            }
            return Err(
                FlywayNaimngCheckerError::SkippedVersion { file: gap_message(lower, upper) },
            );
        }
        at += 1;
    }
    Ok(())
}

} // verus!
