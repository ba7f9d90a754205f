//! What a counting pass adds up to, and why the order of the pull requests
//! does not matter to it.

use vstd::prelude::*;
use vstd::seq_lib::*;

use crate::database::StudentView;
use crate::pulls::PullView;
use crate::tally::{
    counted_author, in_window, lemma_counters_only_grow, lemma_pass_splits, stops, tally, Rules, Tally,
};

verus! {

/// The pull request counts as an open one for the student called `name`.
pub open spec fn counts_open(
    students: Map<Seq<char>, StudentView>,
    pull: PullView,
    rules: Rules,
    name: Seq<char>,
) -> bool {
    &&& pull.author == Some(name)
    &&& counted_author(students, pull.author, rules.end_evals)
    &&& pull.created matches Some(at)
    &&& in_window(at, rules.start, rules.end)
    &&& pull.open
}

/// The pull request counts as a merged one for the student called `name`.
pub open spec fn counts_merged(
    students: Map<Seq<char>, StudentView>,
    pull: PullView,
    rules: Rules,
    name: Seq<char>,
) -> bool {
    &&& pull.author == Some(name)
    &&& counted_author(students, pull.author, rules.end_evals)
    &&& pull.created matches Some(at)
    &&& in_window(at, rules.start, rules.end)
    &&& !pull.open
    &&& pull.merged
}

/// How many of `pulls` satisfy `wanted`.
pub open spec fn how_many(pulls: Seq<PullView>, wanted: spec_fn(PullView) -> bool) -> nat
    decreases pulls.len(),
{
    if pulls.len() == 0 {
        0
    } else {
        how_many(pulls.drop_last(), wanted) + if wanted(pulls.last()) {
            1nat
        } else {
            0nat
        }
    }
}

/// How many of `pulls` count as open ones for `name`.
pub open spec fn opened(
    students: Map<Seq<char>, StudentView>,
    pulls: Seq<PullView>,
    rules: Rules,
    name: Seq<char>,
) -> nat {
    how_many(pulls, |pull: PullView| counts_open(students, pull, rules, name))
}

/// How many of `pulls` count as merged ones for `name`.
pub open spec fn merged(
    students: Map<Seq<char>, StudentView>,
    pulls: Seq<PullView>,
    rules: Rules,
    name: Seq<char>,
) -> nat {
    how_many(pulls, |pull: PullView| counts_merged(students, pull, rules, name))
}

/// None of `pulls` stops a pass.
pub open spec fn none_stops(students: Map<Seq<char>, StudentView>, pulls: Seq<PullView>, rules: Rules) -> bool {
    forall|i: int| 0 <= i < pulls.len() ==> !stops(students, #[trigger] pulls[i], rules)
}

/// The students with, on top of their counters, every pull request of
/// `pulls` that counts for them.
pub open spec fn totals(
    students: Map<Seq<char>, StudentView>,
    pulls: Seq<PullView>,
    rules: Rules,
) -> Map<Seq<char>, StudentView> {
    Map::new(
        |name: Seq<char>| students.contains_key(name),
        |name: Seq<char>|
            StudentView {
                passed_mid_evals: students[name].passed_mid_evals,
                open_pr_count: students[name].open_pr_count + opened(students, pulls, rules, name),
                merged_pr_count: students[name].merged_pr_count + merged(students, pulls, rules, name),
            },
    )
}

/// A pass stops exactly when one of its pull requests stops it, and one
/// that does not stop leaves each student with the student's counters plus
/// the pull requests that count for the student.
pub proof fn lemma_pass_adds_up(students: Map<Seq<char>, StudentView>, pulls: Seq<PullView>, rules: Rules)
    ensures
        tally(students, pulls, rules).stopped <==> !none_stops(students, pulls, rules),
        !tally(students, pulls, rules).stopped ==> tally(students, pulls, rules).students == totals(
            students,
            pulls,
            rules,
        ),
    decreases pulls.len(),
{
    if pulls.len() == 0 {
        assert(tally(students, pulls, rules).students =~= totals(students, pulls, rules));
    } else {
        let front = pulls.drop_last();
        let last = pulls.last();
        lemma_pass_adds_up(students, front, rules);
        lemma_counters_only_grow(students, front, rules);
        let before = tally(students, front, rules);
        assert(stops(before.students, last, rules) == stops(students, last, rules)) by {
            if last.author is Some {
                assert(before.students.contains_key(last.author->0) == students.contains_key(last.author->0));
            }
        }
        if none_stops(students, pulls, rules) {
            assert forall|i: int| 0 <= i < front.len() implies !stops(students, #[trigger] front[i], rules) by {
                assert(front[i] == pulls[i]);
            }
            assert(!stops(students, pulls[pulls.len() - 1], rules));
        } else {
            let i = choose|i: int| 0 <= i < pulls.len() && stops(students, #[trigger] pulls[i], rules);
            if i < front.len() {
                assert(front[i] == pulls[i]);
            }
        }
        if !tally(students, pulls, rules).stopped {
            assert(before.students == totals(students, front, rules));
            assert(counted_author(before.students, last.author, rules.end_evals) == counted_author(
                students,
                last.author,
                rules.end_evals,
            ));
            assert(tally(students, pulls, rules).students =~= totals(students, pulls, rules));
        }
    }
}

/// Taking one pull request out of a listing takes it out of the count, if
/// it was counted.
proof fn lemma_how_many_without(pulls: Seq<PullView>, wanted: spec_fn(PullView) -> bool, i: int)
    requires
        0 <= i < pulls.len(),
    ensures
        how_many(pulls, wanted) == how_many(pulls.remove(i), wanted) + if wanted(pulls[i]) {
            1nat
        } else {
            0nat
        },
    decreases pulls.len(),
{
    if i == pulls.len() - 1 {
        assert(pulls.remove(i) =~= pulls.drop_last());
    } else {
        lemma_how_many_without(pulls.drop_last(), wanted, i);
        assert(pulls.remove(i).drop_last() =~= pulls.drop_last().remove(i));
        assert(pulls.remove(i).last() == pulls.last());
    }
}

/// Two listings of the same pull requests hold as many wanted ones.
proof fn lemma_how_many_reordered(a: Seq<PullView>, b: Seq<PullView>, wanted: spec_fn(PullView) -> bool)
    requires
        a.to_multiset() == b.to_multiset(),
    ensures
        how_many(a, wanted) == how_many(b, wanted),
    decreases a.len(),
{
    broadcast use group_to_multiset_ensures;

    if a.len() == 0 {
        assert(a.to_multiset().len() == a.len());
        assert(b.to_multiset().len() == b.len());
    } else {
        let last = a.last();
        assert(a.contains(last)) by {
            assert(a[a.len() - 1] == last);
        }
        assert(b.to_multiset().count(last) > 0);
        assert(b.contains(last));
        let j = choose|j: int| 0 <= j < b.len() && b[j] == last;
        assert(a.remove(a.len() - 1) =~= a.drop_last());
        assert(a.drop_last().to_multiset() == b.remove(j).to_multiset());
        lemma_how_many_reordered(a.drop_last(), b.remove(j), wanted);
        lemma_how_many_without(b, wanted, j);
    }
}

/// The order of the pull requests does not matter to a pass that is not
/// stopped: two listings that hold the same pull requests, each as often as
/// the other, leave every student with the same counts.
pub proof fn lemma_order_is_immaterial(
    students: Map<Seq<char>, StudentView>,
    a: Seq<PullView>,
    b: Seq<PullView>,
    rules: Rules,
)
    requires
        a.to_multiset() == b.to_multiset(),
        !tally(students, a, rules).stopped,
    ensures
        tally(students, b, rules) == tally(students, a, rules),
{
    broadcast use group_to_multiset_ensures;

    lemma_pass_adds_up(students, a, rules);
    lemma_pass_adds_up(students, b, rules);
    assert(none_stops(students, b, rules)) by {
        assert forall|i: int| 0 <= i < b.len() implies !stops(students, #[trigger] b[i], rules) by {
            assert(b.contains(b[i]));
            assert(a.to_multiset().count(b[i]) > 0);
            assert(a.contains(b[i]));
            let k = choose|k: int| 0 <= k < a.len() && a[k] == b[i];
            assert(!stops(students, a[k], rules));
        }
    }
    assert forall|name: Seq<char>| students.contains_key(name) implies totals(students, a, rules)[name]
        == totals(students, b, rules)[name] by {
        lemma_how_many_reordered(a, b, |pull: PullView| counts_open(students, pull, rules, name));
        lemma_how_many_reordered(a, b, |pull: PullView| counts_merged(students, pull, rules, name));
    }
    assert(totals(students, a, rules) =~= totals(students, b, rules));
}

/// One pass after another, a listing each: every pass begins with what the
/// passes before it counted, and after a pass that stopped no further one is
/// made.
pub open spec fn passes(
    students: Map<Seq<char>, StudentView>,
    listings: Seq<Seq<PullView>>,
    rules: Rules,
) -> Tally
    decreases listings.len(),
{
    if listings.len() == 0 {
        Tally { students, stopped: false }
    } else {
        let before = passes(students, listings.drop_last(), rules);
        if before.stopped {
            before
        } else {
            tally(before.students, listings.last(), rules)
        }
    }
}

/// The pull requests of all `listings`, one listing after the other.
pub open spec fn joined(listings: Seq<Seq<PullView>>) -> Seq<PullView>
    decreases listings.len(),
{
    if listings.len() == 0 {
        Seq::empty()
    } else {
        joined(listings.drop_last()) + listings.last()
    }
}

/// A pass for each listing in turn counts what one pass over all the
/// listings together counts, and stops where that one stops.
pub proof fn lemma_passes_are_one_pass(
    students: Map<Seq<char>, StudentView>,
    listings: Seq<Seq<PullView>>,
    rules: Rules,
)
    ensures
        passes(students, listings, rules) == tally(students, joined(listings), rules),
    decreases listings.len(),
{
    if listings.len() > 0 {
        lemma_passes_are_one_pass(students, listings.drop_last(), rules);
        lemma_pass_splits(students, joined(listings.drop_last()), listings.last(), rules);
    }
}

/// Taking one listing out of the listings takes its pull requests out of
/// all of them together, and no others.
proof fn lemma_joined_without(listings: Seq<Seq<PullView>>, i: int)
    requires
        0 <= i < listings.len(),
    ensures
        joined(listings).to_multiset() == joined(listings.remove(i)).to_multiset().add(
            listings[i].to_multiset(),
        ),
    decreases listings.len(),
{
    let front = listings.drop_last();
    lemma_multiset_commutative(joined(front), listings.last());
    if i == listings.len() - 1 {
        assert(listings.remove(i) =~= front);
    } else {
        lemma_joined_without(front, i);
        assert(listings.remove(i).drop_last() =~= front.remove(i));
        assert(listings.remove(i).last() == listings.last());
        lemma_multiset_commutative(joined(front.remove(i)), listings.last());
        assert(joined(listings).to_multiset() =~= joined(listings.remove(i)).to_multiset().add(
            listings[i].to_multiset(),
        ));
    }
}

/// The same listings in another order hold the same pull requests.
proof fn lemma_joined_reordered(a: Seq<Seq<PullView>>, b: Seq<Seq<PullView>>)
    requires
        a.to_multiset() == b.to_multiset(),
    ensures
        joined(a).to_multiset() == joined(b).to_multiset(),
    decreases a.len(),
{
    broadcast use group_to_multiset_ensures;

    if a.len() == 0 {
        assert(a.to_multiset().len() == a.len());
        assert(b.to_multiset().len() == b.len());
    } else {
        let last = a.last();
        assert(a.contains(last)) by {
            assert(a[a.len() - 1] == last);
        }
        assert(b.to_multiset().count(last) > 0);
        assert(b.contains(last));
        let j = choose|j: int| 0 <= j < b.len() && b[j] == last;
        assert(a.remove(a.len() - 1) =~= a.drop_last());
        assert(a.drop_last().to_multiset() == b.remove(j).to_multiset());
        lemma_joined_reordered(a.drop_last(), b.remove(j));
        lemma_joined_without(b, j);
        lemma_multiset_commutative(joined(a.drop_last()), last);
    }
}

/// The order of the projects does not matter to a run that is not stopped:
/// a pass for each project's listing, the projects taken in any order, leaves
/// every student with the same counts.
pub proof fn lemma_project_order_is_immaterial(
    students: Map<Seq<char>, StudentView>,
    listings: Seq<Seq<PullView>>,
    reordered: Seq<Seq<PullView>>,
    rules: Rules,
)
    requires
        listings.to_multiset() == reordered.to_multiset(),
        !passes(students, listings, rules).stopped,
    ensures
        passes(students, reordered, rules) == passes(students, listings, rules),
{
    lemma_passes_are_one_pass(students, listings, rules);
    lemma_passes_are_one_pass(students, reordered, rules);
    lemma_joined_reordered(listings, reordered);
    lemma_order_is_immaterial(students, joined(listings), joined(reordered), rules);
}

/// The order of the projects does not matter to a pass that is not stopped:
/// the pull requests of one project before those of another count as they do
/// the other way round.
pub proof fn lemma_projects_commute(
    students: Map<Seq<char>, StudentView>,
    one: Seq<PullView>,
    other: Seq<PullView>,
    rules: Rules,
)
    requires
        !tally(students, one + other, rules).stopped,
    ensures
        tally(students, other + one, rules) == tally(students, one + other, rules),
{
    lemma_seq_union_to_multiset_commutative(one, other);
    lemma_order_is_immaterial(students, one + other, other + one, rules);
}

} // verus!
