//! Counting pull requests for students: which pull requests count, for
//! whom, and as what.

use vstd::prelude::*;
use vstd::string::*;

use crate::database::{lists_records, plus_merged, plus_open, Student, StudentDirectory, StudentView};
use crate::error::StatsError;
use crate::pulls::{Pull, PullView};
use crate::timestamp::created_seconds;

verus! {

/// The rules of one counting pass.
pub struct Rules {
    /// The first second of the counted period.
    pub start: int,
    /// The first second after the counted period.
    pub end: int,
    /// The pass is for the end evaluation: it counts only for students who
    /// passed the mid evaluation.
    pub end_evals: bool,
}

/// The mid-evaluation flag of a student who passed: the text `true`.
pub open spec fn pass_flag() -> Seq<char> {
    seq!['t', 'r', 'u', 'e']
}

/// The student's mid-evaluation flag is present and reads `true`.
pub open spec fn passed_mid(student: StudentView) -> bool {
    student.passed_mid_evals == Some(pass_flag())
}

/// `author` names a student of `students` for whom the pass counts: any
/// student in a pass for the mid evaluation, one who passed the mid
/// evaluation in a pass for the end evaluation.
pub open spec fn counted_author(
    students: Map<Seq<char>, StudentView>,
    author: Option<Seq<char>>,
    end_evals: bool,
) -> bool {
    author matches Some(name) && students.contains_key(name) && (end_evals ==> passed_mid(
        students[name],
    ))
}

/// `at` lies in the counted period: from `start` on, before `end`.
pub open spec fn in_window(at: int, start: int, end: int) -> bool {
    start <= at < end
}

/// The students after one pull request has been counted for the student
/// called `name`: an open one adds one to the open count, a merged one that
/// is no longer open adds one to the merged count, and one that was closed
/// without a merge adds nothing.
pub open spec fn credited(
    students: Map<Seq<char>, StudentView>,
    name: Seq<char>,
    open: bool,
    merged: bool,
) -> Map<Seq<char>, StudentView> {
    if open {
        plus_open(students, name)
    } else if merged {
        plus_merged(students, name)
    } else {
        students
    }
}

/// The students after a pull request of the student called `name`, created
/// at `at`, has been looked at: it is counted if `at` lies in the period,
/// and changes nothing if not.
pub open spec fn recorded(
    students: Map<Seq<char>, StudentView>,
    name: Seq<char>,
    open: bool,
    merged: bool,
    at: int,
    start: int,
    end: int,
) -> Map<Seq<char>, StudentView> {
    if in_window(at, start, end) {
        credited(students, name, open, merged)
    } else {
        students
    }
}

/// The pull request stops the pass: it is by a counted student and has no
/// well-formed creation time.
pub open spec fn stops(students: Map<Seq<char>, StudentView>, pull: PullView, rules: Rules) -> bool {
    counted_author(students, pull.author, rules.end_evals) && pull.created is None
}

/// The students after one pull request that does not stop the pass.
pub open spec fn after_pull(
    students: Map<Seq<char>, StudentView>,
    pull: PullView,
    rules: Rules,
) -> Map<Seq<char>, StudentView> {
    if counted_author(students, pull.author, rules.end_evals) && pull.created is Some {
        recorded(
            students,
            pull.author->0,
            pull.open,
            pull.merged,
            pull.created->0,
            rules.start,
            rules.end,
        )
    } else {
        students
    }
}

/// How far a pass came.
pub struct Tally {
    /// The students with what was counted.
    pub students: Map<Seq<char>, StudentView>,
    /// The pass met a pull request that stopped it.
    pub stopped: bool,
}

/// A pass over `pulls` in order: each pull request is counted on top of
/// those before it, up to the first that stops the pass; nothing after that
/// one is counted.
pub open spec fn tally(students: Map<Seq<char>, StudentView>, pulls: Seq<PullView>, rules: Rules) -> Tally
    decreases pulls.len(),
{
    if pulls.len() == 0 {
        Tally { students, stopped: false }
    } else {
        let before = tally(students, pulls.drop_last(), rules);
        if before.stopped || stops(before.students, pulls.last(), rules) {
            Tally { students: before.students, stopped: true }
        } else {
            Tally { students: after_pull(before.students, pulls.last(), rules), stopped: false }
        }
    }
}

/// What counting reads of each pull request of a listing.
pub open spec fn views(pulls: Seq<Pull>) -> Seq<PullView> {
    pulls.map_values(|pull: Pull| pull@)
}

/// Every counter fits the 32 bits that a student's record has for it.
pub open spec fn fits(students: Map<Seq<char>, StudentView>) -> bool {
    forall|name: Seq<char>| #[trigger]
        students.contains_key(name) ==> students[name].open_pr_count <= u32::MAX
            && students[name].merged_pr_count <= u32::MAX
}

/// Each counter can take `n` more pull requests.
pub open spec fn has_room(students: Map<Seq<char>, StudentView>, n: nat) -> bool {
    forall|name: Seq<char>| #[trigger]
        students.contains_key(name) ==> students[name].open_pr_count + n <= u32::MAX
            && students[name].merged_pr_count + n <= u32::MAX
}

/// Whether each counter of each student can take `n` more pull requests.
pub fn room_for(students: &StudentDirectory, n: usize) -> (enough: bool)
    requires
        students.wf(),
    ensures
        enough == has_room(students@, n as nat),
{
    let list = students.students();
    let mut i: usize = 0;
    while i < list.len()
        invariant
            i <= list.len(),
            lists_records(list@, students.records()),
            forall|k: int|
                0 <= k < i ==> (#[trigger] list[k]).open_pr_count + n <= u32::MAX && list[k].merged_pr_count
                    + n <= u32::MAX,
        decreases list.len() - i,
    {
        let student = &list[i];
        if n > (u32::MAX - student.open_pr_count) as usize || n > (u32::MAX - student.merged_pr_count) as usize {
            proof {
                assert(students.records()[student.username@] == *student);
                assert(students@.contains_key(student.username@));
            }
            return false;
        }
        i += 1;
    }
    proof {
        assert forall|name: Seq<char>| #[trigger] students@.contains_key(name) implies students@[name].open_pr_count
            + n <= u32::MAX && students@[name].merged_pr_count + n <= u32::MAX by {
            assert(students.records().contains_key(name));
            let k = choose|k: int| 0 <= k < list.len() && (#[trigger] list[k]).username@ == name;
            assert(students.records()[list[k].username@] == list[k]);
        }
    }
    true
}

/// Whether the student passed the mid evaluation.
pub fn has_passed_mid(student: &Student) -> (passed: bool)
    ensures
        passed == passed_mid(student@),
{
    match &student.passed_mid_evals {
        Some(flag) => {
            let word = String::from_str("true");
            proof {
                reveal_strlit("true");
                assert(word@ =~= pass_flag());
            }
            *flag == word
        },
        None => false,
    }
}

/// The student for whom `pull` is counted, if it is counted for anyone: the
/// author, where the directory holds the author and, in a pass for the end
/// evaluation, the author passed the mid evaluation.
pub fn counted_student<'a>(students: &StudentDirectory, pull: &'a Pull, is_end_evals: bool) -> (name:
    Option<&'a String>)
    requires
        students.wf(),
    ensures
        match name {
            Some(login) => pull.author() == Some(login@) && counted_author(
                students@,
                pull.author(),
                is_end_evals,
            ),
            None => !counted_author(students@, pull.author(), is_end_evals),
        },
{
    match pull.author_login() {
        None => None,
        Some(login) => match students.get(login) {
            None => None,
            Some(student) => {
                if is_end_evals && !has_passed_mid(student) {
                    None
                } else {
                    Some(login)
                }
            },
        },
    }
}

/// Looks at one pull request of the student called `name`, created at
/// `created`: inside the period from `start_time` to just before `end_time`
/// it adds one to the open count if the pull request is open, else one to
/// the merged count if it was merged; in every other case nothing changes.
pub fn record_pull(
    students: &mut StudentDirectory,
    name: &String,
    open: bool,
    merged: bool,
    created: i64,
    start_time: i64,
    end_time: i64,
)
    requires
        old(students).wf(),
        fits(
            recorded(
                old(students)@,
                name@,
                open,
                merged,
                created as int,
                start_time as int,
                end_time as int,
            ),
        ),
    ensures
        final(students).wf(),
        final(students)@ == recorded(
            old(students)@,
            name@,
            open,
            merged,
            created as int,
            start_time as int,
            end_time as int,
        ),
        final(students).same_profiles(*old(students)),
{
    if created < start_time || created >= end_time {
        return ;
    }
    if open {
        proof {
            if students@.contains_key(name@) {
                assert(plus_open(students@, name@).contains_key(name@));
            }
        }
        students.add_open(name);
    } else if merged {
        proof {
            if students@.contains_key(name@) {
                assert(plus_merged(students@, name@).contains_key(name@));
            }
        }
        students.add_merged(name);
    }
}

/// Counts the pull requests of one listing for the students.
///
/// The pull requests are taken in order. One whose author is no student, or
/// is a student who under `is_end_evals` did not pass the mid evaluation, is
/// passed over. Of any other the creation time is read: if it is missing or
/// malformed the pass ends with `MalformedTimestamp`, and the students keep
/// what was counted up to there. A pull request created from `start_time`
/// on and before `end_time` then counts once: as open if its state is
/// `open`, else as merged if it was merged.
///
/// Of the fields that a listing may leave out, only the creation time is
/// an error, and only where it is read. A pull request that names no author
/// is nobody's and is passed over like that of a stranger; one without a
/// state is not open, and so counts as merged if it was merged and not at
/// all otherwise.
///
/// The counts must fit their counters: `update_if_room` tests that before
/// it counts.
pub fn update_users_pr_counts(
    start_time: i64,
    end_time: i64,
    kwoc_students: &mut StudentDirectory,
    pulls: &Vec<Pull>,
    is_end_evals: bool,
) -> (done: Result<(), StatsError>)
    requires
        old(kwoc_students).wf(),
        fits(
            tally(
                old(kwoc_students)@,
                views(pulls@),
                Rules { start: start_time as int, end: end_time as int, end_evals: is_end_evals },
            ).students,
        ),
    ensures
        final(kwoc_students).wf(),
        final(kwoc_students).same_profiles(*old(kwoc_students)),
        ({
            let rules = Rules { start: start_time as int, end: end_time as int, end_evals: is_end_evals };
            let pass = tally(old(kwoc_students)@, views(pulls@), rules);
            &&& final(kwoc_students)@ == pass.students
            &&& done is Ok <==> !pass.stopped
            &&& done is Err ==> done == Err::<(), StatsError>(StatsError::MalformedTimestamp)
        }),
{
    let ghost rules = Rules { start: start_time as int, end: end_time as int, end_evals: is_end_evals };
    let ghost first = *kwoc_students;
    let ghost all = views(pulls@);
    let mut i: usize = 0;
    proof {
        assert(all.take(0) =~= Seq::<PullView>::empty());
    }
    while i < pulls.len()
        invariant
            i <= pulls.len(),
            first == *old(kwoc_students),
            all == views(pulls@),
            rules == (Rules { start: start_time as int, end: end_time as int, end_evals: is_end_evals }),
            kwoc_students.wf(),
            kwoc_students.same_profiles(first),
            fits(tally(first@, all, rules).students),
            kwoc_students@ == tally(first@, all.take(i as int), rules).students,
            !tally(first@, all.take(i as int), rules).stopped,
        decreases pulls.len() - i,
    {
        let pull = &pulls[i];
        let ghost before = *kwoc_students;
        proof {
            assert(all.take(i + 1).drop_last() =~= all.take(i as int));
            assert(all.take(i + 1).last() == pull@);
        }
        match counted_student(kwoc_students, pull, is_end_evals) {
            None => {},
            Some(name) => {
                match created_seconds(&pull.created_at) {
                    Err(e) => {
                        proof {
                            assert(stops(before@, pull@, rules));
                            assert(tally(first@, all.take(i + 1), rules).stopped);
                            lemma_stopped_stays(first@, all, rules, i + 1);
                            assert(all.take(all.len() as int) =~= all);
                        }
                        return Err(e);
                    },
                    Ok(created) => {
                        proof {
                            assert(!stops(before@, pull@, rules));
                            assert(tally(first@, all.take(i + 1), rules).students == after_pull(
                                before@,
                                pull@,
                                rules,
                            ));
                            lemma_prefix_fits(first@, all, rules, i + 1);
                        }
                        record_pull(
                            kwoc_students,
                            name,
                            pull.has_open_state(),
                            pull.was_merged(),
                            created,
                            start_time,
                            end_time,
                        );
                    },
                }
            },
        }
        proof {
            assert(kwoc_students@ == after_pull(before@, pull@, rules));
            assert(kwoc_students@.dom() =~= before@.dom());
        }
        i += 1;
    }
    proof {
        assert(all.take(all.len() as int) =~= all);
    }
    Ok(())
}

/// Counts the pull requests of one listing for the students, as
/// `update_users_pr_counts` does, if every counter has room for all of
/// them; if one has not, nothing is counted and the answer is `None`.
pub fn update_if_room(
    start_time: i64,
    end_time: i64,
    kwoc_students: &mut StudentDirectory,
    pulls: &Vec<Pull>,
    is_end_evals: bool,
) -> (done: Option<Result<(), StatsError>>)
    requires
        old(kwoc_students).wf(),
    ensures
        final(kwoc_students).wf(),
        final(kwoc_students).same_profiles(*old(kwoc_students)),
        ({
            let rules = Rules { start: start_time as int, end: end_time as int, end_evals: is_end_evals };
            let pass = tally(old(kwoc_students)@, views(pulls@), rules);
            match done {
                Some(counted) => {
                    &&& has_room(old(kwoc_students)@, pulls.len() as nat)
                    &&& final(kwoc_students)@ == pass.students
                    &&& counted is Ok <==> !pass.stopped
                    &&& counted is Err ==> counted == Err::<(), StatsError>(StatsError::MalformedTimestamp)
                },
                None => {
                    &&& !has_room(old(kwoc_students)@, pulls.len() as nat)
                    &&& final(kwoc_students)@ == old(kwoc_students)@
                },
            }
        }),
{
    if !room_for(kwoc_students, pulls.len()) {
        return None;
    }
    proof {
        lemma_room_is_enough(
            kwoc_students@,
            views(pulls@),
            Rules { start: start_time as int, end: end_time as int, end_evals: is_end_evals },
        );
    }
    Some(update_users_pr_counts(start_time, end_time, kwoc_students, pulls, is_end_evals))
}

/// A pass changes nothing but counters, and counters only grow, by one for
/// each pull request at most: it keeps the students and their evaluation
/// flags, and no count ever falls.
pub proof fn lemma_counters_only_grow(
    students: Map<Seq<char>, StudentView>,
    pulls: Seq<PullView>,
    rules: Rules,
)
    ensures
        tally(students, pulls, rules).students.dom() == students.dom(),
        forall|name: Seq<char>| #[trigger]
            students.contains_key(name) ==> {
                let after = tally(students, pulls, rules).students[name];
                &&& after.passed_mid_evals == students[name].passed_mid_evals
                &&& students[name].open_pr_count <= after.open_pr_count <= students[name].open_pr_count
                    + pulls.len()
                &&& students[name].merged_pr_count <= after.merged_pr_count
                    <= students[name].merged_pr_count + pulls.len()
            },
    decreases pulls.len(),
{
    if pulls.len() > 0 {
        lemma_counters_only_grow(students, pulls.drop_last(), rules);
        let before = tally(students, pulls.drop_last(), rules).students;
        let after = tally(students, pulls, rules).students;
        assert(after.dom() =~= before.dom());
    }
}

/// Counters with room for every pull request of a listing fit after a pass
/// over it.
pub proof fn lemma_room_is_enough(students: Map<Seq<char>, StudentView>, pulls: Seq<PullView>, rules: Rules)
    requires
        has_room(students, pulls.len()),
    ensures
        fits(tally(students, pulls, rules).students),
{
    lemma_counters_only_grow(students, pulls, rules);
    assert forall|name: Seq<char>| #[trigger]
        tally(students, pulls, rules).students.contains_key(name) implies tally(
        students,
        pulls,
        rules,
    ).students[name].open_pr_count <= u32::MAX && tally(students, pulls, rules).students[name].merged_pr_count
        <= u32::MAX by {
        assert(students.contains_key(name));
    }
}

/// A pass over one listing and then another is one pass over the two
/// together: what the first pass counted is where the second begins, and a
/// first pass that stopped leaves nothing to the second.
pub proof fn lemma_pass_splits(
    students: Map<Seq<char>, StudentView>,
    one: Seq<PullView>,
    other: Seq<PullView>,
    rules: Rules,
)
    ensures
        tally(students, one + other, rules) == if tally(students, one, rules).stopped {
            tally(students, one, rules)
        } else {
            tally(tally(students, one, rules).students, other, rules)
        },
    decreases other.len(),
{
    if other.len() == 0 {
        assert(one + other =~= one);
    } else {
        lemma_pass_splits(students, one, other.drop_last(), rules);
        assert((one + other).drop_last() =~= one + other.drop_last());
        assert((one + other).last() == other.last());
    }
}

/// If the counts of a whole pass fit their counters, so do the counts of
/// every part of it from the start.
pub proof fn lemma_prefix_fits(
    students: Map<Seq<char>, StudentView>,
    pulls: Seq<PullView>,
    rules: Rules,
    k: int,
)
    requires
        0 <= k <= pulls.len(),
        fits(tally(students, pulls, rules).students),
    ensures
        fits(tally(students, pulls.take(k), rules).students),
{
    let part = tally(students, pulls.take(k), rules);
    if part.stopped {
        lemma_stopped_stays(students, pulls, rules, k);
    } else {
        assert(pulls.take(k) + pulls.skip(k) =~= pulls);
        lemma_pass_splits(students, pulls.take(k), pulls.skip(k), rules);
        lemma_counters_only_grow(part.students, pulls.skip(k), rules);
        assert forall|name: Seq<char>| #[trigger] part.students.contains_key(name) implies part.students[name].open_pr_count
            <= u32::MAX && part.students[name].merged_pr_count <= u32::MAX by {
            assert(tally(students, pulls, rules).students.contains_key(name));
        }
    }
}

/// A pull request created inside the period by a counted student adds one
/// to exactly one counter of that student, the open count if it is open and
/// else the merged count if it was merged, and adds nothing only if it was
/// closed without a merge. No other student and nothing else of the student
/// changes.
pub proof fn lemma_counts_once(students: Map<Seq<char>, StudentView>, pull: PullView, rules: Rules)
    requires
        counted_author(students, pull.author, rules.end_evals),
        pull.created matches Some(at) && in_window(at, rules.start, rules.end),
    ensures
        ({
            let name = pull.author->0;
            let before = students[name];
            let after = after_pull(students, pull, rules);
            &&& after.dom() == students.dom()
            &&& forall|other: Seq<char>|
                other != name && students.contains_key(other) ==> #[trigger] after[other] == students[other]
            &&& after[name].passed_mid_evals == before.passed_mid_evals
            &&& pull.open ==> after[name].open_pr_count == before.open_pr_count + 1
                && after[name].merged_pr_count == before.merged_pr_count
            &&& !pull.open && pull.merged ==> after[name].merged_pr_count == before.merged_pr_count + 1
                && after[name].open_pr_count == before.open_pr_count
            &&& !pull.open && !pull.merged ==> after == students
        }),
{
    assert(after_pull(students, pull, rules).dom() =~= students.dom());
}

/// A pull request created at the very end of the period is not counted.
pub proof fn lemma_end_is_outside(students: Map<Seq<char>, StudentView>, pull: PullView, rules: Rules)
    requires
        pull.created == Some(rules.end),
    ensures
        !stops(students, pull, rules),
        after_pull(students, pull, rules) == students,
{
}

/// A pull request created at the very start of a period that is not empty
/// is counted like any other inside it.
pub proof fn lemma_start_is_inside(students: Map<Seq<char>, StudentView>, pull: PullView, rules: Rules)
    requires
        rules.start < rules.end,
        pull.created == Some(rules.start),
        counted_author(students, pull.author, rules.end_evals),
    ensures
        !stops(students, pull, rules),
        after_pull(students, pull, rules) == credited(students, pull.author->0, pull.open, pull.merged),
{
}

/// In a pass for the end evaluation, a pull request of a student who did
/// not pass the mid evaluation neither counts nor stops the pass, whatever
/// its creation time.
pub proof fn lemma_failed_mid_evals_count_nothing(students: Map<Seq<char>, StudentView>, pull: PullView, rules: Rules)
    requires
        rules.end_evals,
        pull.author matches Some(name) && students.contains_key(name) && !passed_mid(students[name]),
    ensures
        !stops(students, pull, rules),
        after_pull(students, pull, rules) == students,
{
}

/// Once a pass has stopped, no further pull request changes what it counted.
pub proof fn lemma_stopped_stays(
    students: Map<Seq<char>, StudentView>,
    pulls: Seq<PullView>,
    rules: Rules,
    k: int,
)
    requires
        0 <= k <= pulls.len(),
        tally(students, pulls.take(k), rules).stopped,
    ensures
        tally(students, pulls, rules) == tally(students, pulls.take(k), rules),
    decreases pulls.len() - k,
{
    if k == pulls.len() {
        assert(pulls.take(k) =~= pulls);
    } else {
        assert(pulls.drop_last().take(k) =~= pulls.take(k));
        lemma_stopped_stays(students, pulls.drop_last(), rules, k);
    }
}

} // verus!
