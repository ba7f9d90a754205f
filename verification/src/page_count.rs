//! How many requests a walk through a listing makes.

use vstd::arithmetic::div_mod::{lemma_div_is_ordered, lemma_div_multiples_vanish};
use vstd::arithmetic::mul::lemma_mul_is_distributive_add_other_way;
use vstd::prelude::*;

use crate::pagination::{step, Page, Progress};
use crate::pulls::Pull;

verus! {

/// The walk after the responses `pages`, in order.
pub open spec fn replay(walk: Progress, pages: Seq<Page>) -> Progress
    decreases pages.len(),
{
    if pages.len() == 0 {
        walk
    } else {
        step(replay(walk, pages.drop_last()), pages.last())
    }
}

/// How many of the responses `pages` the walk asked for: those that came
/// while it was not over.
pub open spec fn requests(walk: Progress, pages: Seq<Page>) -> nat
    decreases pages.len(),
{
    if pages.len() == 0 {
        0
    } else {
        requests(walk, pages.drop_last()) + if replay(walk, pages.drop_last()).next is Some {
            1nat
        } else {
            0nat
        }
    }
}

/// The pull requests of all `pages`, in order.
pub open spec fn all_pulls(pages: Seq<Page>) -> Seq<Pull>
    decreases pages.len(),
{
    if pages.len() == 0 {
        Seq::empty()
    } else {
        all_pulls(pages.drop_last()) + pages.last().pulls
    }
}

/// `pages` is a whole listing, handed out `per_page` pull requests at a
/// time: every response is a success, every page but the last is full and
/// names a next page, and the last page names none.
pub open spec fn whole_listing(pages: Seq<Page>, per_page: nat) -> bool {
    &&& pages.len() >= 1
    &&& per_page >= 1
    &&& forall|k: int|
        0 <= k < pages.len() ==> {
            let page = #[trigger] pages[k];
            &&& page.success
            &&& k < pages.len() - 1 ==> page.next is Some && page.pulls.len() == per_page
            &&& k == pages.len() - 1 ==> page.next is None
        }
}

/// The least number of pages of `per_page` that hold `total` pull requests.
pub open spec fn pages_needed(total: nat, per_page: nat) -> int {
    (total + per_page - 1) / (per_page as int)
}

/// A page that names no next page ends the walk: a walk whose first
/// response has no link to a next page makes one request.
pub proof fn lemma_page_without_link_ends_walk(walk: Progress, page: Page)
    requires
        walk.next is Some,
        page.next is None,
    ensures
        step(walk, page).next is None,
        requests(walk, seq![page]) == 1,
        replay(walk, seq![page]) == step(walk, page),
{
    let pages = seq![page];
    assert(pages.drop_last() =~= Seq::<Page>::empty());
    assert(pages.last() == page);
    assert(replay(walk, pages.drop_last()) == walk);
    assert(requests(walk, pages.drop_last()) == 0);
}

/// A response without success ends the walk at once, with the pull requests
/// fetched before it and the mark that pages may be missing.
pub proof fn lemma_failure_ends_walk(walk: Progress, page: Page)
    requires
        walk.next is Some,
        !page.success,
    ensures
        step(walk, page) == (Progress { next: None, pulls: walk.pulls, cut_short: true }),
{
}

/// A walk that is over asks for nothing more and keeps what it has.
pub proof fn lemma_walk_stays_over(walk: Progress, pages: Seq<Page>)
    requires
        walk.next is None,
    ensures
        replay(walk, pages) == walk,
        requests(walk, pages) == 0,
    decreases pages.len(),
{
    if pages.len() > 0 {
        lemma_walk_stays_over(walk, pages.drop_last());
    }
}

/// The first `k` pages of a whole listing, `k` short of all of them, are
/// full pages fetched with `k` requests, and the walk is not over.
proof fn lemma_full_pages(walk: Progress, pages: Seq<Page>, per_page: nat, k: int)
    requires
        walk.next is Some,
        whole_listing(pages, per_page),
        0 <= k < pages.len(),
    ensures
        replay(walk, pages.take(k)).next is Some,
        replay(walk, pages.take(k)).pulls == walk.pulls + all_pulls(pages.take(k)),
        replay(walk, pages.take(k)).cut_short == walk.cut_short,
        requests(walk, pages.take(k)) == k,
        all_pulls(pages.take(k)).len() == k * per_page,
    decreases k,
{
    if k == 0 {
        assert(pages.take(0) =~= Seq::<Page>::empty());
        assert(walk.pulls + all_pulls(pages.take(0)) =~= walk.pulls);
    } else {
        lemma_full_pages(walk, pages, per_page, k - 1);
        assert(pages.take(k).drop_last() =~= pages.take(k - 1));
        assert(pages.take(k).last() == pages[k - 1]);
        let before = replay(walk, pages.take(k - 1));
        assert(replay(walk, pages.take(k)) == step(before, pages[k - 1]));
        assert(replay(walk, pages.take(k)).pulls =~= walk.pulls + all_pulls(pages.take(k)));
        assert(all_pulls(pages.take(k)).len() == (k - 1) * per_page + per_page);
        assert((k - 1) * per_page + per_page == k * per_page) by {
            lemma_mul_is_distributive_add_other_way(per_page as int, k - 1, 1);
        }
    }
}

/// A walk through a whole listing asks for every page once and then is
/// over, with all pull requests in order and not cut short; and it makes
/// at most one request more than the pull requests need pages.
pub proof fn lemma_whole_listing_is_fetched(walk: Progress, pages: Seq<Page>, per_page: nat)
    requires
        walk.next is Some,
        whole_listing(pages, per_page),
    ensures
        replay(walk, pages).next is None,
        replay(walk, pages).cut_short == walk.cut_short,
        replay(walk, pages).pulls == walk.pulls + all_pulls(pages),
        requests(walk, pages) == pages.len(),
        pages.len() <= pages_needed(all_pulls(pages).len(), per_page) + 1,
{
    let n = pages.len() as int;
    let front = pages.drop_last();
    lemma_full_pages(walk, pages, per_page, n - 1);
    assert(pages.take(n - 1) =~= front);
    assert(pages.last() == pages[n - 1]);
    assert(replay(walk, pages).pulls =~= walk.pulls + all_pulls(pages));
    let total = all_pulls(pages).len() as int;
    let pp = per_page as int;
    assert(total == (n - 1) * pp + pages[n - 1].pulls.len());
    assert(pp * (n - 1) == (n - 1) * pp) by (nonlinear_arith);
    lemma_div_multiples_vanish(n - 1, pp);
    lemma_div_is_ordered(pp * (n - 1), total + pp - 1, pp);
}

} // verus!
