use vstd::prelude::*;

use crate::aggregate::{all_records, dropped, kept, sum_stars, lemma_sum_stars_append};
use crate::model::RepositoryRecord;
use crate::ordering::{insert_position, lemma_sort_is_permutation, sort_by_stars};
use crate::paging::{page_order, pages_needed, PAGE_SIZE};

verus! {

/// Holds of a record with at least `threshold` stars.
pub open spec fn at_least(threshold: u32) -> spec_fn(RepositoryRecord) -> bool {
    |r: RepositoryRecord| r.star_count >= threshold
}

proof fn lemma_kept_is_filter(records: Seq<RepositoryRecord>, threshold: u32)
    ensures
        kept(records, threshold) == records.filter(at_least(threshold)),
    decreases records.len(),
{
    reveal(Seq::filter);
    if records.len() > 0 {
        lemma_kept_is_filter(records.drop_last(), threshold);
    } else {
        assert(kept(records, threshold) =~= records.filter(at_least(threshold)));
    }
}

/// The retained repositories are exactly the fetched records with at least
/// `threshold` stars: the same records, each as often, whatever the order.
pub proof fn lemma_retained_exactly_at_threshold(records: Seq<RepositoryRecord>, threshold: u32)
    ensures
        sort_by_stars(kept(records, threshold)).to_multiset() == records.filter(at_least(threshold)).to_multiset(),
        forall|r: RepositoryRecord|
            sort_by_stars(kept(records, threshold)).contains(r) <==> (records.contains(r)
                && r.star_count >= threshold),
{
    broadcast use vstd::seq_lib::group_to_multiset_ensures;
    broadcast use vstd::seq_lib::group_filter_ensures;

    let pred = at_least(threshold);
    lemma_kept_is_filter(records, threshold);
    lemma_sort_is_permutation(kept(records, threshold));
    let out = sort_by_stars(kept(records, threshold));
    assert forall|r: RepositoryRecord| out.contains(r) <==> (records.contains(r) && r.star_count
        >= threshold) by {
        assert(out.contains(r) <==> out.to_multiset().count(r) > 0);
        assert(records.filter(pred).contains(r) <==> records.filter(pred).to_multiset().count(r)
            > 0);
        if out.contains(r) {
            records.lemma_filter_contains_rev(pred, r);
            let i = choose|i: int| 0 <= i < records.filter(pred).len() && records.filter(pred)[i] == r;
            records.lemma_filter_pred(pred, i);
        }
        if records.contains(r) && pred(r) {
            let i = choose|i: int| 0 <= i < records.len() && records[i] == r;
            records.lemma_filter_contains(pred, i);
        }
    }
}

proof fn lemma_insert_keeps_sum(s: Seq<RepositoryRecord>, p: int, x: RepositoryRecord)
    requires
        0 <= p <= s.len(),
    ensures
        sum_stars(s.insert(p, x)) == sum_stars(s) + x.star_count,
{
    let a = s.subrange(0, p);
    let b = s.subrange(p, s.len() as int);
    assert(s =~= a + b);
    assert(s.insert(p, x) =~= a.push(x) + b);
    lemma_sum_stars_append(a, b);
    lemma_sum_stars_append(a.push(x), b);
    assert(a.push(x).drop_last() =~= a);
}

proof fn lemma_sort_keeps_sum(s: Seq<RepositoryRecord>)
    ensures
        sum_stars(sort_by_stars(s)) == sum_stars(s),
    decreases s.len(),
{
    if s.len() > 0 {
        lemma_sort_keeps_sum(s.drop_last());
        let rest = sort_by_stars(s.drop_last());
        crate::ordering::lemma_insert_position_bound(rest, s.last());
        lemma_insert_keeps_sum(rest, insert_position(rest, s.last()) as int, s.last());
    }
}

proof fn lemma_split_sum(records: Seq<RepositoryRecord>, threshold: u32)
    ensures
        sum_stars(records) == sum_stars(kept(records, threshold)) + sum_stars(
            dropped(records, threshold),
        ),
    decreases records.len(),
{
    if records.len() > 0 {
        lemma_split_sum(records.drop_last(), threshold);
        let k = kept(records.drop_last(), threshold);
        let d = dropped(records.drop_last(), threshold);
        assert(k.push(records.last()).drop_last() =~= k);
        assert(d.push(records.last()).drop_last() =~= d);
    }
}

/// The total counts the stars of every fetched record, whatever the
/// threshold: it is the stars of the retained repositories plus those of the
/// records below the threshold, so never less than the former.
pub proof fn lemma_total_counts_every_record(records: Seq<RepositoryRecord>, threshold: u32)
    ensures
        sum_stars(records) == sum_stars(sort_by_stars(kept(records, threshold))) + sum_stars(
            dropped(records, threshold),
        ),
        sum_stars(records) >= sum_stars(sort_by_stars(kept(records, threshold))),
{
    lemma_split_sum(records, threshold);
    lemma_sort_keeps_sum(kept(records, threshold));
}

/// A user with no public repositories gets no page request, and the
/// aggregation of no page retains nothing and totals zero.
pub proof fn lemma_no_repositories(threshold: u32)
    ensures
        page_order(pages_needed(0, PAGE_SIZE as nat)).len() == 0,
        sort_by_stars(kept(all_records(Seq::empty()), threshold)).len() == 0,
        sum_stars(all_records(Seq::empty())) == 0,
{
    assert(pages_needed(0, PAGE_SIZE as nat) == 0);
}

/// The page plan requests every page from 1 to the number of pages needed,
/// each once.
pub proof fn lemma_page_plan_covers(public_repo_count: u32)
    ensures
        ({
            let total = pages_needed(public_repo_count as nat, PAGE_SIZE as nat);
            let plan = page_order(total);
            &&& plan.len() == total
            &&& forall|p: u32| plan.contains(p) <==> 1 <= p <= total
            &&& forall|i: int, j: int| 0 <= i < j < plan.len() ==> plan[i] != plan[j]
        }),
{
    let total = pages_needed(public_repo_count as nat, PAGE_SIZE as nat);
    let plan = page_order(total);
    assert(total <= 42949673) by (nonlinear_arith)
        requires
            total == ((public_repo_count as nat + 99) as nat) / 100,
            public_repo_count <= u32::MAX,
    ;
    assert forall|p: u32| plan.contains(p) <==> 1 <= p <= total by {
        if 1 <= p <= total {
            assert(plan[total - p] == p);
        }
    }
}

} // verus!
