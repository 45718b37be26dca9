//! What holds of the checks on every input.

use crate::consistency::{
    duplicate_verdict, is_gap, lemma_no_gap_is_a_run, lemma_twice_is_a_repeat,
    lemma_versions_of_holds, lemma_versions_of_len, repeats_version, skipped_verdict, versions_of,
};
use crate::convention::{
    decimal_value, first_separator, from_first_digit, is_digit, is_first_separator, is_last_dot,
    is_number, is_only_separator, is_prefix_letter, last_dot, lemma_extension_at,
    lemma_first_separator_at, lemma_separators_from_first, lemma_separators_from_none,
    prefix_verdict, separator_at, separator_count, separator_verdict, suffix_verdict,
    suggested_prefix, version_of, version_verdict,
};
use crate::error::{verdict_of, Fault, FlywayNaimngCheckerError};
use crate::sorting::{
    in_ascending_order, lemma_ascending_order_is_unique, lemma_in_ascending_order,
};
use crate::text::decimal_text;
use vstd::prelude::*;

verus! {

/// An empty file name has no prefix, and both checks that look at the first
/// character say so.
pub proof fn lemma_empty_name_has_no_prefix(name: Seq<char>)
    requires
        name.len() == 0,
    ensures
        prefix_verdict(name) == Err::<(), Fault>(Fault::NoPrefix { file: name }),
        version_verdict(name) == Err::<(), Fault>(Fault::NoPrefix { file: name }),
{
}

/// A file name whose first character is none of `V`, `U` and `R`, any other
/// upper-case letter among them, fails the prefix check and the version
/// check alike: with a prefix fault that holds this character as what was
/// found. Unless the character is a lower-case `u` or `r`, the two faults
/// are the same and expect a `V`.
pub proof fn lemma_other_first_character_is_prefix_fault(name: Seq<char>)
    requires
        name.len() > 0,
        !is_prefix_letter(name[0]),
    ensures
        prefix_verdict(name) == Err::<(), Fault>(
            Fault::Prefix {
                file: name,
                expected: suggested_prefix(name[0]),
                found: seq![name[0]],
            },
        ),
        version_verdict(name) == Err::<(), Fault>(
            Fault::Prefix { file: name, expected: seq!['V'], found: seq![name[0]] },
        ),
        name[0] != 'u' && name[0] != 'r' ==> prefix_verdict(name) == version_verdict(name),
{
}

/// For a file name that begins with a lower-case `u` or `r`, the prefix
/// check expects this very letter, not `V`.
pub proof fn lemma_lower_case_prefix_is_expected_back(name: Seq<char>)
    requires
        name.len() > 0,
        name[0] == 'u' || name[0] == 'r',
    ensures
        prefix_verdict(name) == Err::<(), Fault>(
            Fault::Prefix { file: name, expected: seq![name[0]], found: seq![name[0]] },
        ),
{
}

/// A name that holds a `.` has a last one.
pub proof fn lemma_last_dot_exists(name: Seq<char>)
    requires
        name.contains('.'),
    ensures
        is_last_dot(name, last_dot(name)),
    decreases name.len(),
{
    let some = choose|i: int| 0 <= i < name.len() && name[i] == '.';
    if name.last() == '.' {
        assert(is_last_dot(name, name.len() - 1));
    } else {
        let front = name.drop_last();
        assert(front[some] == '.');
        lemma_last_dot_exists(front);
        let at = last_dot(front);
        assert forall|after: int| at < after < name.len() implies name[after] != '.' by {
            if after < front.len() {
                assert(name[after] == front[after]);
            }
        }
        assert(is_last_dot(name, at));
    }
}

/// Whatever stands in front of it, the extension `.sql` passes the suffix
/// check.
pub proof fn lemma_sql_extension_passes(stem: Seq<char>)
    ensures
        suffix_verdict(stem + ".sql"@) is Ok,
{
    reveal_strlit(".sql");
    reveal_strlit("sql");
    let name = stem + ".sql"@;
    lemma_extension_at(name, stem.len() as int);
    assert(name.skip(stem.len() as int + 1) =~= "sql"@);
}

/// A file name without a `.` passes the suffix check.
pub proof fn lemma_name_without_dot_passes(name: Seq<char>)
    requires
        !name.contains('.'),
    ensures
        suffix_verdict(name) is Ok,
{
}

/// The suffix check tells upper case from lower case: the extension `.SQL`
/// fails, and is reported as found.
pub proof fn lemma_upper_case_extension_fails(stem: Seq<char>)
    ensures
        suffix_verdict(stem + ".SQL"@) == Err::<(), Fault>(
            Fault::Suffix { file: stem + ".SQL"@, expected: ".sql"@, found: "SQL"@ },
        ),
{
    reveal_strlit(".SQL");
    reveal_strlit("SQL");
    reveal_strlit("sql");
    let name = stem + ".SQL"@;
    lemma_extension_at(name, stem.len() as int);
    assert(name.skip(stem.len() as int + 1) =~= "SQL"@);
    assert("SQL"@[0] != "sql"@[0]);
}

/// A name in which a separator is counted has a leftmost one.
pub proof fn lemma_first_separator_exists(name: Seq<char>)
    requires
        separator_count(name) > 0,
    ensures
        is_first_separator(name, first_separator(name)),
{
    let first = lemma_separators_from_first(name, 0);
    assert(is_first_separator(name, first));
}

/// The separator check passes a file name with exactly one separator, and
/// no other: a name without two underscores in a row fails, and so does a
/// name in which a separator is followed by another.
pub proof fn lemma_separator_check_wants_one(name: Seq<char>)
    ensures
        separator_verdict(name) is Ok <==> exists|at: int| is_only_separator(name, at),
        (forall|at: int| !separator_at(name, at)) ==> separator_verdict(name) is Err,
        (exists|at: int, later: int|
            separator_at(name, at) && separator_at(name, later) && at + 2 <= later)
            ==> separator_verdict(name) is Err,
        separator_verdict(name) is Err ==> separator_verdict(name) == Err::<(), Fault>(
            Fault::Separator { file: name },
        ),
{
    lemma_separators_from_none(name, 0);
    if separator_count(name) > 0 {
        let first = lemma_separators_from_first(name, 0);
        lemma_separators_from_none(name, first + 2);
        if separator_count(name) == 1 {
            assert(is_only_separator(name, first));
        }
    }
}

/// A file name that carries a version passes the separator check.
pub proof fn lemma_version_needs_one_separator(name: Seq<char>)
    requires
        version_of(name) is Some,
    ensures
        separator_verdict(name) is Ok,
{
}

/// Writing a number in base ten and reading it back gives the number: the
/// text is a number, it spells the number written, and it starts with a zero
/// only where the number is zero.
pub proof fn lemma_decimal_text_reads_back(number: nat)
    ensures
        is_number(decimal_text(number)),
        decimal_value(decimal_text(number)) == number,
        number > 0 ==> decimal_text(number)[0] != '0',
    decreases number,
{
    reveal_strlit("0123456789");
    let text = decimal_text(number);
    if number < 10 {
        assert(decimal_value(text.drop_last()) == 0);
    } else {
        lemma_decimal_text_reads_back(number / 10);
        assert(text.drop_last() =~= decimal_text(number / 10));
    }
}

/// A file name put together by the convention, of `V`, `U` or `R`, a number,
/// the separator and a description that holds no separator, passes the
/// prefix check, the version check and the separator check, and carries the
/// number as its version.
pub proof fn lemma_conventional_name_carries_its_version(
    letter: char,
    number: u32,
    description: Seq<char>,
)
    requires
        is_prefix_letter(letter),
        separator_count(description) == 0,
    ensures
        ({
            let name = seq![letter] + decimal_text(number as nat) + "__"@ + description;
            &&& prefix_verdict(name) is Ok
            &&& version_verdict(name) is Ok
            &&& separator_verdict(name) is Ok
            &&& version_of(name) == Some(number)
        }),
{
    reveal_strlit("__");
    let digits = decimal_text(number as nat);
    let name = seq![letter] + digits + "__"@ + description;
    let at = 1 + digits.len() as int;
    lemma_decimal_text_reads_back(number as nat);
    lemma_separators_from_none(description, 0);
    assert(is_digit(name[1]));
    assert(is_only_separator(name, at)) by {
        assert forall|later: int| at + 2 <= later implies !separator_at(name, later) by {
            if separator_at(name, later) {
                assert(separator_at(description, later - at - 2));
            }
        }
    }
    lemma_separator_check_wants_one(name);
    lemma_first_separator_at(name, at);
    let head = name.take(at);
    assert(head.drop_first() =~= digits);
    assert(from_first_digit(head) == from_first_digit(digits));
}

/// The check for duplicate versions passes just when the versions of the
/// names are all different.
pub proof fn lemma_no_duplicate_means_all_different(names: Seq<Seq<char>>)
    ensures
        duplicate_verdict(names) is Ok <==> versions_of(names).no_duplicates(),
{
    let versions = versions_of(names);
    if duplicate_verdict(names) is Err {
        let at = choose|at: int| repeats_version(names, at);
        let earlier = choose|earlier: int|
            0 <= earlier < at && version_of(#[trigger] names[earlier]) == version_of(names[at]);
        lemma_versions_of_holds(names, earlier, at);
        assert(!versions.no_duplicates()) by {
            if versions.no_duplicates() {
                versions.lemma_multiset_has_no_duplicates();
            }
        }
    }
    if !versions.no_duplicates() {
        let (i, j) = choose|i: int, j: int|
            0 <= i < versions.len() && 0 <= j < versions.len() && i != j && versions[i]
                == versions[j];
        if i < j {
            lemma_twice_is_a_repeat(names, i, j);
        } else {
            lemma_twice_is_a_repeat(names, j, i);
        }
    }
}

/// The versions of no name, and those of a single name, hold no gap.
pub proof fn lemma_up_to_one_name_has_no_gap(names: Seq<Seq<char>>)
    requires
        names.len() <= 1,
    ensures
        skipped_verdict(names) is Ok,
{
    lemma_versions_of_len(names);
    lemma_in_ascending_order(versions_of(names));
}

/// The check for skipped versions does not depend on the order of the
/// names: the same versions, each as often, give the same verdict.
pub proof fn lemma_gaps_do_not_depend_on_order(names: Seq<Seq<char>>, others: Seq<Seq<char>>)
    requires
        versions_of(names).to_multiset() == versions_of(others).to_multiset(),
    ensures
        skipped_verdict(names) == skipped_verdict(others),
{
    lemma_in_ascending_order(versions_of(names));
    lemma_ascending_order_is_unique(in_ascending_order(versions_of(names)), versions_of(others));
}

/// The check for skipped versions passes just when the versions, put in
/// ascending order, form a run: each is the lowest plus its position.
pub proof fn lemma_no_gap_means_a_run(names: Seq<Seq<char>>)
    ensures
        ({
            let sorted = in_ascending_order(versions_of(names));
            skipped_verdict(names) is Ok <==> forall|at: int|
                0 <= at < sorted.len() ==> #[trigger] sorted[at] == sorted[0] + at
        }),
{
    let sorted = in_ascending_order(versions_of(names));
    lemma_in_ascending_order(versions_of(names));
    if skipped_verdict(names) is Ok {
        assert forall|at: int| 0 <= at < sorted.len() implies #[trigger] sorted[at] == sorted[0]
            + at by {
            lemma_no_gap_is_a_run(sorted, at);
        }
    }
}

/// Where the check for duplicate versions fails, the check for skipped
/// versions fails as well: in ascending order a repeated version is its own
/// neighbour, and the two are not one apart.
pub proof fn lemma_duplicate_is_a_gap(names: Seq<Seq<char>>)
    requires
        duplicate_verdict(names) is Err,
    ensures
        skipped_verdict(names) is Err,
{
    let at = choose|at: int| repeats_version(names, at);
    let earlier = choose|earlier: int|
        0 <= earlier < at && version_of(#[trigger] names[earlier]) == version_of(names[at]);
    lemma_versions_of_holds(names, earlier, at);
    let sorted = in_ascending_order(versions_of(names));
    lemma_in_ascending_order(versions_of(names));
    assert(!sorted.no_duplicates()) by {
        if sorted.no_duplicates() {
            sorted.lemma_multiset_has_no_duplicates();
        }
    }
    let (i, j) = choose|i: int, j: int|
        0 <= i < sorted.len() && 0 <= j < sorted.len() && i != j && sorted[i] == sorted[j];
    assert(is_gap(sorted, if i < j { i } else { j }));
}

/// Each check settles its verdict by the characters of its input alone, so
/// that a second run on the same input can only repeat the first.
pub proof fn lemma_second_run_agrees(
    name: Seq<char>,
    names: Seq<Seq<char>>,
    first: Result<(), FlywayNaimngCheckerError>,
    second: Result<(), FlywayNaimngCheckerError>,
)
    requires
        ({
            ||| verdict_of(first) == prefix_verdict(name) && verdict_of(second) == prefix_verdict(
                name,
            )
            ||| verdict_of(first) == suffix_verdict(name) && verdict_of(second) == suffix_verdict(
                name,
            )
            ||| verdict_of(first) == separator_verdict(name) && verdict_of(second)
                == separator_verdict(name)
            ||| verdict_of(first) == version_verdict(name) && verdict_of(second) == version_verdict(
                name,
            )
            ||| verdict_of(first) == duplicate_verdict(names) && verdict_of(second)
                == duplicate_verdict(names)
            ||| verdict_of(first) == skipped_verdict(names) && verdict_of(second)
                == skipped_verdict(names)
        }),
    ensures
        verdict_of(first) == verdict_of(second),
        first is Ok <==> second is Ok,
{
}

} // verus!
