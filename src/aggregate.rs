use vstd::prelude::*;

use crate::model::{AggregationResult, RepositoryRecord};
use crate::ordering::{sort_by_stars, sort_records_by_stars};

verus! {

/// The records of all pages, page after page.
pub open spec fn all_records(pages: Seq<Vec<RepositoryRecord>>) -> Seq<RepositoryRecord>
    decreases pages.len(),
{
    if pages.len() == 0 {
        Seq::empty()
    } else {
        all_records(pages.drop_last()) + pages.last()@
    }
}

/// The sum of the stars of the records.
pub open spec fn sum_stars(s: Seq<RepositoryRecord>) -> nat
    decreases s.len(),
{
    if s.len() == 0 {
        0
    } else {
        sum_stars(s.drop_last()) + s.last().star_count as nat
    }
}

/// The records with at least `threshold` stars, in their order.
pub open spec fn kept(s: Seq<RepositoryRecord>, threshold: u32) -> Seq<RepositoryRecord>
    decreases s.len(),
{
    if s.len() == 0 {
        Seq::empty()
    } else if s.last().star_count >= threshold {
        kept(s.drop_last(), threshold).push(s.last())
    } else {
        kept(s.drop_last(), threshold)
    }
}

/// The records with fewer than `threshold` stars, in their order.
pub open spec fn dropped(s: Seq<RepositoryRecord>, threshold: u32) -> Seq<RepositoryRecord>
    decreases s.len(),
{
    if s.len() == 0 {
        Seq::empty()
    } else if s.last().star_count < threshold {
        dropped(s.drop_last(), threshold).push(s.last())
    } else {
        dropped(s.drop_last(), threshold)
    }
}

pub proof fn lemma_sum_stars_append(a: Seq<RepositoryRecord>, b: Seq<RepositoryRecord>)
    ensures
        sum_stars(a + b) == sum_stars(a) + sum_stars(b),
    decreases b.len(),
{
    if b.len() > 0 {
        lemma_sum_stars_append(a, b.drop_last());
        assert((a + b).drop_last() =~= a + b.drop_last());
    } else {
        assert(a + b =~= a);
    }
}

pub proof fn lemma_kept_append(a: Seq<RepositoryRecord>, b: Seq<RepositoryRecord>, threshold: u32)
    ensures
        kept(a + b, threshold) == kept(a, threshold) + kept(b, threshold),
    decreases b.len(),
{
    if b.len() > 0 {
        lemma_kept_append(a, b.drop_last(), threshold);
        assert((a + b).drop_last() =~= a + b.drop_last());
        assert((a + b).last() == b.last());
        if b.last().star_count >= threshold {
            assert(kept(a, threshold) + kept(b.drop_last(), threshold).push(b.last()) =~= (
            kept(a, threshold) + kept(b.drop_last(), threshold)).push(b.last()));
        }
    } else {
        assert(a + b =~= a);
        assert(kept(a, threshold) + Seq::empty() =~= kept(a, threshold));
    }
}

pub proof fn lemma_all_records_append(a: Seq<Vec<RepositoryRecord>>, b: Seq<Vec<RepositoryRecord>>)
    ensures
        all_records(a + b) == all_records(a) + all_records(b),
    decreases b.len(),
{
    if b.len() > 0 {
        lemma_all_records_append(a, b.drop_last());
        assert((a + b).drop_last() =~= a + b.drop_last());
        assert((a + b).last() == b.last());
        assert(all_records(a) + all_records(b.drop_last()) + b.last()@ =~= all_records(a) + (
        all_records(b.drop_last()) + b.last()@));
    } else {
        assert(a + b =~= a);
        assert(all_records(a) + Seq::empty() =~= all_records(a));
    }
}

/// The running state of the pipeline while pages come in: the records kept
/// so far, in the order they came, and the stars of every record seen.
pub struct StarTally {
    pub retained: Vec<RepositoryRecord>,
    pub total: u64,
}

impl StarTally {
    /// A tally that has seen no record.
    pub fn new() -> (r: StarTally)
        ensures
            r.retained@ == Seq::<RepositoryRecord>::empty(),
            r.total == 0,
    {
        StarTally { retained: Vec::new(), total: 0 }
    }

    /// Counts the stars of every record of `page` and keeps the records with
    /// at least `threshold` stars.
    pub fn absorb_page(&mut self, page: Vec<RepositoryRecord>, threshold: u32)
        requires
            old(self).total + sum_stars(page@) <= u64::MAX,
        ensures
            final(self).total == old(self).total + sum_stars(page@),
            final(self).retained@ == old(self).retained@ + kept(page@, threshold),
    {
        let ghost orig = page@;
        let ghost start = *self;
        let n: usize = page.len();
        let mut rest = page;
        let mut j: usize = 0;
        proof {
            assert(orig.subrange(0, 0) =~= Seq::<RepositoryRecord>::empty());
            assert(start.retained@ + Seq::<RepositoryRecord>::empty() =~= start.retained@);
        }
        while rest.len() > 0
            invariant
                j <= orig.len() == n,
                start.total + sum_stars(orig) <= u64::MAX,
                rest@ == orig.subrange(j as int, orig.len() as int),
                self.total == start.total + sum_stars(orig.subrange(0, j as int)),
                self.retained@ == start.retained@ + kept(orig.subrange(0, j as int), threshold),
            decreases rest.len(),
        {
            let r = rest.remove(0);
            proof {
                let pre = orig.subrange(0, j as int);
                let next = orig.subrange(0, j as int + 1);
                assert(next.drop_last() =~= pre);
                assert(next.last() == r);
                lemma_sum_stars_append(next, orig.subrange(j as int + 1, orig.len() as int));
                assert(next + orig.subrange(j as int + 1, orig.len() as int) =~= orig);
            }
            self.total = self.total + r.star_count as u64;
            if r.star_count >= threshold {
                self.retained.push(r);
                proof {
                    assert(start.retained@ + kept(orig.subrange(0, j as int), threshold).push(
                    orig[j as int]) =~= (start.retained@ + kept(orig.subrange(0, j as int), threshold)).push(
                    orig[j as int]));
                }
            }
            j = j + 1;
        }
        proof {
            assert(orig.subrange(0, j as int) =~= orig);
        }
    }

    /// Ends the tally: the kept records ordered by stars, most first, and the
    /// total.
    pub fn finish(self) -> (r: AggregationResult)
        ensures
            r.retained_repositories@ == sort_by_stars(self.retained@),
            r.total_star_count == self.total,
    {
        let StarTally { retained, total } = self;
        AggregationResult {
            retained_repositories: sort_records_by_stars(retained),
            total_star_count: total,
        }
    }
}

/// Aggregates the fetched pages: the total counts the stars of every record,
/// the retained list holds the records with at least `threshold` stars,
/// most starred first, records with equal stars in the order they came.
pub fn aggregate(pages: Vec<Vec<RepositoryRecord>>, threshold: u32) -> (r: AggregationResult)
    requires
        sum_stars(all_records(pages@)) <= u64::MAX,
    ensures
        r.total_star_count == sum_stars(all_records(pages@)),
        r.retained_repositories@ == sort_by_stars(kept(all_records(pages@), threshold)),
{
    let ghost orig = pages@;
    let n: usize = pages.len();
    let mut rest = pages;
    let mut tally = StarTally::new();
    let mut k: usize = 0;
    proof {
        assert(orig.subrange(0, 0) =~= Seq::<Vec<RepositoryRecord>>::empty());
    }
    while rest.len() > 0
        invariant
            k <= orig.len() == n,
            sum_stars(all_records(orig)) <= u64::MAX,
            rest@ == orig.subrange(k as int, orig.len() as int),
            tally.total == sum_stars(all_records(orig.subrange(0, k as int))),
            tally.retained@ == kept(all_records(orig.subrange(0, k as int)), threshold),
        decreases rest.len(),
    {
        let page = rest.remove(0);
        proof {
            let pre = orig.subrange(0, k as int);
            let next = orig.subrange(0, k as int + 1);
            let post = orig.subrange(k as int + 1, orig.len() as int);
            assert(next.drop_last() =~= pre);
            assert(next.last() == page);
            assert(next + post =~= orig);
            lemma_all_records_append(next, post);
            lemma_sum_stars_append(all_records(next), all_records(post));
            lemma_sum_stars_append(all_records(pre), page@);
            lemma_kept_append(all_records(pre), page@, threshold);
        }
        tally.absorb_page(page, threshold);
        k = k + 1;
    }
    proof {
        assert(orig.subrange(0, k as int) =~= orig);
    }
    tally.finish()
}


/// Whether the stars of all records of `pages` sum to at most `u64::MAX`,
/// which `aggregate` needs.
pub fn total_fits(pages: &Vec<Vec<RepositoryRecord>>) -> (r: bool)
    ensures
        r == (sum_stars(all_records(pages@)) <= u64::MAX),
{
    let mut sum: u64 = 0;
    let mut k: usize = 0;
    proof {
        assert(pages@.subrange(0, 0) =~= Seq::<Vec<RepositoryRecord>>::empty());
    }
    while k < pages.len()
        invariant
            k <= pages@.len(),
            sum == sum_stars(all_records(pages@.subrange(0, k as int))),
        decreases pages.len() - k,
    {
        let page = &pages[k];
        let mut j: usize = 0;
        let ghost base = all_records(pages@.subrange(0, k as int));
        proof {
            assert(base + page@.subrange(0, 0) =~= base);
        }
        while j < page.len()
            invariant
                k < pages@.len(),
                page == pages@[k as int],
                j <= page@.len(),
                base == all_records(pages@.subrange(0, k as int)),
                sum == sum_stars(base + page@.subrange(0, j as int)),
            decreases page.len() - j,
        {
            let ghost next = base + page@.subrange(0, j + 1);
            proof {
                assert(next.drop_last() =~= base + page@.subrange(0, j as int));
            }
            let stars = page[j].star_count as u64;
            if sum > u64::MAX - stars {
                proof {
                    let rest = pages@.subrange(k as int + 1, pages@.len() as int);
                    let first = pages@.subrange(0, k as int + 1);
                    assert(first.drop_last() =~= pages@.subrange(0, k as int));
                    assert(first + rest =~= pages@);
                    lemma_all_records_append(first, rest);
                    assert(page@ =~= page@.subrange(0, j + 1) + page@.subrange(j + 1, page@.len() as int));
                    assert(all_records(first) =~= next + page@.subrange(j + 1, page@.len() as int));
                    lemma_sum_stars_append(next, page@.subrange(j + 1, page@.len() as int));
                    lemma_sum_stars_append(all_records(first), all_records(rest));
                }
                return false;
            }
            sum = sum + stars;
            j = j + 1;
        }
        proof {
            let first = pages@.subrange(0, k as int + 1);
            assert(first.drop_last() =~= pages@.subrange(0, k as int));
            assert(page@.subrange(0, j as int) =~= page@);
        }
        k = k + 1;
    }
    proof {
        assert(pages@.subrange(0, k as int) =~= pages@);
    }
    true
}

} // verus!
