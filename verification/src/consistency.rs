//! The rules that hold of a whole set of file names, stated over the names
//! as sequences of characters.

use crate::convention::version_of;
use crate::error::{Fault, Verdict};
use crate::sorting::in_ascending_order;
use crate::text::decimal_text;
use vstd::prelude::*;
use vstd::seq_lib::to_multiset_build;

verus! {

/// The file names as sequences of characters.
pub open spec fn texts(file_names: Seq<String>) -> Seq<Seq<char>> {
    Seq::new(file_names.len(), |at: int| file_names[at]@)
}

/// Whether the name at position `at` carries a version that an earlier name
/// carries too.
pub open spec fn repeats_version(names: Seq<Seq<char>>, at: int) -> bool {
    &&& 0 <= at < names.len()
    &&& version_of(names[at]) is Some
    &&& exists|earlier: int|
        0 <= earlier < at && version_of(#[trigger] names[earlier]) == version_of(names[at])
}

/// Whether the name at position `at` is the first to repeat a version.
pub open spec fn is_first_repeat(names: Seq<Seq<char>>, at: int) -> bool {
    &&& repeats_version(names, at)
    &&& forall|before: int| 0 <= before < at ==> !repeats_version(names, before)
}

/// The rule of unique versions: no name repeats the version of an earlier
/// one. The fault names the first name that does. Names without a version
/// take no part.
pub open spec fn duplicate_verdict(names: Seq<Seq<char>>) -> Verdict {
    if exists|at: int| repeats_version(names, at) {
        Err(Fault::DuplicateVersion { file: names[choose|at: int| is_first_repeat(names, at)] })
    } else {
        Ok(())
    }
}

/// The versions of those names that have one, in the order of the names.
pub open spec fn versions_of(names: Seq<Seq<char>>) -> Seq<u32>
    decreases names.len(),
{
    if names.len() == 0 {
        Seq::empty()
    } else {
        match version_of(names.last()) {
            Some(version) => versions_of(names.drop_last()).push(version),
            None => versions_of(names.drop_last()),
        }
    }
}

/// Whether the version at position `at` is not followed by its successor.
/// A version followed by itself counts.
pub open spec fn is_gap(versions: Seq<u32>, at: int) -> bool {
    0 <= at && at + 1 < versions.len() && versions[at + 1] != versions[at] + 1
}

/// Whether the first gap of `versions` is the one at position `at`.
pub open spec fn is_first_gap(versions: Seq<u32>, at: int) -> bool {
    &&& is_gap(versions, at)
    &&& forall|before: int| 0 <= before < at ==> !is_gap(versions, before)
}

/// The text that reports a gap between two neighbouring versions.
pub open spec fn gap_text(lower: u32, upper: u32) -> Seq<char> {
    "From V"@ + decimal_text(lower as nat) + " to V"@ + decimal_text(upper as nat)
}

/// The rule on versions in ascending order: each is followed by its
/// successor. The fault reports the first gap.
pub open spec fn gap_verdict(versions: Seq<u32>) -> Verdict {
    if exists|at: int| is_gap(versions, at) {
        let at = choose|at: int| is_first_gap(versions, at);
        Err(Fault::SkippedVersion { file: gap_text(versions[at], versions[at + 1]) })
    } else {
        Ok(())
    }
}

/// The rule of contiguous versions: put in ascending order, the versions of
/// the names go up one by one. Names without a version take no part.
pub open spec fn skipped_verdict(names: Seq<Seq<char>>) -> Verdict {
    gap_verdict(in_ascending_order(versions_of(names)))
}

/// The first name to repeat a version is where one finds it.
pub proof fn lemma_duplicate_verdict_at(names: Seq<Seq<char>>, at: int)
    requires
        is_first_repeat(names, at),
    ensures
        duplicate_verdict(names) == Err::<(), Fault>(Fault::DuplicateVersion { file: names[at] }),
{
}

/// The first gap is where one finds it.
pub proof fn lemma_gap_verdict_at(versions: Seq<u32>, at: int)
    requires
        is_first_gap(versions, at),
    ensures
        gap_verdict(versions) == Err::<(), Fault>(
            Fault::SkippedVersion { file: gap_text(versions[at], versions[at + 1]) },
        ),
{
}

/// There are no more versions than names.
pub proof fn lemma_versions_of_len(names: Seq<Seq<char>>)
    ensures
        versions_of(names).len() <= names.len(),
    decreases names.len(),
{
    if names.len() > 0 {
        lemma_versions_of_len(names.drop_last());
    }
}

/// The version of each name is among the versions, and a version that two
/// names carry is there twice.
pub proof fn lemma_versions_of_holds(names: Seq<Seq<char>>, earlier: int, at: int)
    requires
        0 <= earlier <= at < names.len(),
        version_of(names[at]) is Some,
        version_of(names[earlier]) == version_of(names[at]),
    ensures
        versions_of(names).to_multiset().count(version_of(names[at])->0) >= (if earlier < at {
            2nat
        } else {
            1nat
        }),
    decreases names.len(),
{
    broadcast use vstd::multiset::group_multiset_axioms;

    let version = version_of(names[at])->0;
    let front = names.drop_last();
    if at + 1 == names.len() {
        to_multiset_build(versions_of(front), version);
        if earlier < at {
            lemma_versions_of_holds(front, earlier, earlier);
        }
    } else {
        lemma_versions_of_holds(front, earlier, at);
        if version_of(names.last()) is Some {
            to_multiset_build(versions_of(front), version_of(names.last())->0);
        }
    }
}

/// Versions without a gap form a run: each is the first plus its position.
pub proof fn lemma_no_gap_is_a_run(versions: Seq<u32>, at: int)
    requires
        forall|before: int| 0 <= before < at ==> !is_gap(versions, before),
        0 <= at < versions.len(),
    ensures
        versions[at] == versions[0] + at,
    decreases at,
{
    if at > 0 {
        lemma_no_gap_is_a_run(versions, at - 1);
        assert(!is_gap(versions, at - 1));
    }
}

/// Each of the versions is the version of one of the names.
pub proof fn lemma_version_has_a_name(names: Seq<Seq<char>>, at: int) -> (name_at: int)
    requires
        0 <= at < versions_of(names).len(),
    ensures
        0 <= name_at < names.len(),
        version_of(names[name_at]) == Some(versions_of(names)[at]),
    decreases names.len(),
{
    let front = names.drop_last();
    if version_of(names.last()) is Some && at == versions_of(front).len() {
        names.len() - 1
    } else {
        lemma_version_has_a_name(front, at)
    }
}

/// Where a version stands twice among the versions, a name repeats the
/// version of an earlier name.
pub proof fn lemma_twice_is_a_repeat(names: Seq<Seq<char>>, first: int, second: int) -> (at: int)
    requires
        0 <= first < second < versions_of(names).len(),
        versions_of(names)[first] == versions_of(names)[second],
    ensures
        repeats_version(names, at),
    decreases names.len(),
{
    let front = names.drop_last();
    if version_of(names.last()) is Some && second == versions_of(front).len() {
        lemma_version_has_a_name(front, first);
        names.len() - 1
    } else {
        lemma_twice_is_a_repeat(front, first, second)
    }
}

} // verus!
