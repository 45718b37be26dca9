//! The naming convention, stated over file names as sequences of characters.

use crate::error::{Fault, Verdict};
use vstd::prelude::*;

verus! {

/// The letters that may open a file name: versioned, undo, repeatable.
pub open spec fn is_prefix_letter(c: char) -> bool {
    c == 'V' || c == 'U' || c == 'R'
}

/// The ASCII digits.
pub open spec fn is_digit(c: char) -> bool {
    '0' <= c <= '9'
}

/// The prefix that a rejected first character most likely stands for: the
/// character itself for a lower-case `u` or `r`, and `V` for all others.
pub open spec fn suggested_prefix(found: char) -> Seq<char> {
    if found == 'u' {
        seq!['u']
    } else if found == 'r' {
        seq!['r']
    } else {
        seq!['V']
    }
}

/// The prefix rule: the first character is `V`, `U` or `R`.
pub open spec fn prefix_verdict(name: Seq<char>) -> Verdict {
    if name.len() == 0 {
        Err(Fault::NoPrefix { file: name })
    } else if is_prefix_letter(name[0]) {
        Ok(())
    } else {
        Err(Fault::Prefix { file: name, expected: suggested_prefix(name[0]), found: seq![name[0]] })
    }
}

/// The version rule: a digit follows a `V` or `U` prefix; `R` needs none.
pub open spec fn version_verdict(name: Seq<char>) -> Verdict {
    if name.len() == 0 {
        Err(Fault::NoPrefix { file: name })
    } else if name[0] == 'V' || name[0] == 'U' {
        if name.len() == 1 {
            Err(Fault::NoVersion { file: name })
        } else if is_digit(name[1]) {
            Ok(())
        } else {
            Err(Fault::Version { file: name, prefix: seq![name[0]], found: seq![name[1]] })
        }
    } else if name[0] == 'R' {
        Ok(())
    } else {
        Err(Fault::Prefix { file: name, expected: seq!['V'], found: seq![name[0]] })
    }
}

/// Whether the last `.` of `name` stands at position `at`.
pub open spec fn is_last_dot(name: Seq<char>, at: int) -> bool {
    &&& 0 <= at < name.len()
    &&& name[at] == '.'
    &&& forall|after: int| at < after < name.len() ==> name[after] != '.'
}

/// The position of the last `.` of a name that has one.
pub open spec fn last_dot(name: Seq<char>) -> int {
    choose|at: int| is_last_dot(name, at)
}

/// What follows the last `.` of `name`; none where `name` holds no `.`.
pub open spec fn extension(name: Seq<char>) -> Option<Seq<char>> {
    if name.contains('.') {
        Some(name.skip(last_dot(name) + 1))
    } else {
        None
    }
}

/// The suffix rule: a name with an extension has the extension `sql`, in
/// lower case. A name without a `.` passes.
pub open spec fn suffix_verdict(name: Seq<char>) -> Verdict {
    match extension(name) {
        Some(found) => if found == "sql"@ {
            Ok(())
        } else {
            Err(Fault::Suffix { file: name, expected: ".sql"@, found })
        },
        None => Ok(()),
    }
}

/// The last `.` of a name is where one finds it: the extension is what
/// follows it.
pub proof fn lemma_extension_at(name: Seq<char>, at: int)
    requires
        is_last_dot(name, at),
    ensures
        last_dot(name) == at,
        extension(name) == Some(name.skip(at + 1)),
{
}

/// Whether a separator, two underscores in a row, starts at position `at`.
pub open spec fn separator_at(name: Seq<char>, at: int) -> bool {
    0 <= at && at + 1 < name.len() && name[at] == '_' && name[at + 1] == '_'
}

/// The number of separators in `name` from position `from` on. The name is
/// read from left to right and reading resumes behind each separator found,
/// so three underscores in a row hold one separator and four hold two.
pub open spec fn separators_from(name: Seq<char>, from: int) -> nat
    decreases name.len() - from,
{
    if from + 1 >= name.len() {
        0
    } else if separator_at(name, from) {
        1 + separators_from(name, from + 2)
    } else {
        separators_from(name, from + 1)
    }
}

/// The number of separators in `name`: one less than the number of parts
/// into which the separators cut it.
pub open spec fn separator_count(name: Seq<char>) -> nat {
    separators_from(name, 0)
}

/// The separator rule: the name holds exactly one separator.
pub open spec fn separator_verdict(name: Seq<char>) -> Verdict {
    if separator_count(name) == 1 {
        Ok(())
    } else {
        Err(Fault::Separator { file: name })
    }
}

/// Whether the leftmost separator of `name` starts at position `at`.
pub open spec fn is_first_separator(name: Seq<char>, at: int) -> bool {
    &&& separator_at(name, at)
    &&& forall|before: int| 0 <= before < at ==> !separator_at(name, before)
}

/// The position of the leftmost separator of a name that has one.
pub open spec fn first_separator(name: Seq<char>) -> int {
    choose|at: int| is_first_separator(name, at)
}

/// Whether `name` holds one separator only, at position `at`: none starts
/// before it, and none behind its two underscores.
pub open spec fn is_only_separator(name: Seq<char>, at: int) -> bool {
    &&& is_first_separator(name, at)
    &&& forall|later: int| at + 2 <= later ==> !separator_at(name, later)
}

/// The leftmost separator of a name is where one finds it.
pub proof fn lemma_first_separator_at(name: Seq<char>, at: int)
    requires
        is_first_separator(name, at),
    ensures
        first_separator(name) == at,
{
}

/// No separator is counted from `from` on just when none starts there or
/// later.
pub proof fn lemma_separators_from_none(name: Seq<char>, from: int)
    requires
        0 <= from,
    ensures
        separators_from(name, from) == 0 <==> forall|at: int|
            from <= at ==> !separator_at(name, at),
    decreases name.len() - from,
{
    if from + 1 < name.len() && !separator_at(name, from) {
        lemma_separators_from_none(name, from + 1);
    }
}

/// Where a separator is counted from `from` on, the first to start at
/// `from` or later is counted, and counting resumes behind it.
pub proof fn lemma_separators_from_first(name: Seq<char>, from: int) -> (first: int)
    requires
        0 <= from,
        separators_from(name, from) > 0,
    ensures
        from <= first,
        separator_at(name, first),
        forall|at: int| from <= at < first ==> !separator_at(name, at),
        separators_from(name, from) == 1 + separators_from(name, first + 2),
    decreases name.len() - from,
{
    if separator_at(name, from) {
        from
    } else {
        lemma_separators_from_first(name, from + 1)
    }
}

/// `text` without the characters in front of its first digit; empty where
/// `text` holds no digit.
pub open spec fn from_first_digit(text: Seq<char>) -> Seq<char>
    decreases text.len(),
{
    if text.len() == 0 || is_digit(text[0]) {
        text
    } else {
        from_first_digit(text.drop_first())
    }
}

/// The number that a digit stands for; 0 for any other character.
pub open spec fn digit_value(c: char) -> nat {
    if is_digit(c) {
        (c as u32 - '0' as u32) as nat
    } else {
        0
    }
}

/// The number that `digits` spells in base ten; leading zeros count for nothing.
pub open spec fn decimal_value(digits: Seq<char>) -> nat
    decreases digits.len(),
{
    if digits.len() == 0 {
        0
    } else {
        10 * decimal_value(digits.drop_last()) + digit_value(digits.last())
    }
}

/// Whether `text` is a non-empty run of digits.
pub open spec fn is_number(text: Seq<char>) -> bool {
    &&& text.len() > 0
    &&& forall|i: int| 0 <= i < text.len() ==> is_digit(#[trigger] text[i])
}

/// The version that `text` spells: `text` is a number and fits 32 bits.
pub open spec fn parsed_version(text: Seq<char>) -> Option<u32> {
    if is_number(text) && decimal_value(text) <= u32::MAX {
        Some(decimal_value(text) as u32)
    } else {
        None
    }
}

/// The part of `name` that is read as its version: what stands in front of
/// the leftmost separator, from its first digit on.
pub open spec fn version_text(name: Seq<char>) -> Seq<char> {
    from_first_digit(name.take(first_separator(name)))
}

/// The version of a file name. A name has one only if it holds exactly one
/// separator and the text in front of it ends, behind any run of characters
/// that are no digits, in a number that fits 32 bits.
pub open spec fn version_of(name: Seq<char>) -> Option<u32> {
    if separator_count(name) == 1 {
        parsed_version(version_text(name))
    } else {
        None
    }
}

} // verus!
