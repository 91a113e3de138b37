use vstd::prelude::*;

use crate::model::RepositoryRecord;

verus! {

/// Stars never increase from one entry to a later one.
pub open spec fn is_sorted_by_stars(s: Seq<RepositoryRecord>) -> bool {
    forall|i: int, j: int| 0 <= i < j < s.len() ==> s[i].star_count >= s[j].star_count
}

/// Where `x` goes in `s`: before the first entry with fewer stars than `x`,
/// so after every entry with as many stars or more.
pub open spec fn insert_position(s: Seq<RepositoryRecord>, x: RepositoryRecord) -> nat
    decreases s.len(),
{
    if s.len() == 0 {
        0
    } else if s[0].star_count < x.star_count {
        0
    } else {
        1 + insert_position(s.drop_first(), x)
    }
}

/// The records ordered by stars, most first; records with equal stars keep
/// the order in which they came.
pub open spec fn sort_by_stars(s: Seq<RepositoryRecord>) -> Seq<RepositoryRecord>
    decreases s.len(),
{
    if s.len() == 0 {
        Seq::empty()
    } else {
        let rest = sort_by_stars(s.drop_last());
        rest.insert(insert_position(rest, s.last()) as int, s.last())
    }
}

proof fn lemma_insert_position(s: Seq<RepositoryRecord>, x: RepositoryRecord)
    ensures
        insert_position(s, x) <= s.len(),
        forall|j: int|
            0 <= j < insert_position(s, x) ==> s[j].star_count >= x.star_count,
        insert_position(s, x) < s.len() ==> s[insert_position(s, x) as int].star_count
            < x.star_count,
    decreases s.len(),
{
    if s.len() > 0 && s[0].star_count >= x.star_count {
        lemma_insert_position(s.drop_first(), x);
        assert forall|j: int| 0 <= j < insert_position(s, x) implies s[j].star_count
            >= x.star_count by {
            if j > 0 {
                assert(s[j] == s.drop_first()[j - 1]);
            }
        }
    }
}

pub proof fn lemma_insert_position_bound(s: Seq<RepositoryRecord>, x: RepositoryRecord)
    ensures
        insert_position(s, x) <= s.len(),
{
    lemma_insert_position(s, x);
}

proof fn lemma_insert_position_found(s: Seq<RepositoryRecord>, x: RepositoryRecord, i: int)
    requires
        0 <= i <= s.len(),
        forall|j: int| 0 <= j < i ==> s[j].star_count >= x.star_count,
        i < s.len() ==> s[i].star_count < x.star_count,
    ensures
        insert_position(s, x) == i,
    decreases s.len(),
{
    if s.len() > 0 && i > 0 {
        assert forall|j: int| 0 <= j < i - 1 implies s.drop_first()[j].star_count
            >= x.star_count by {
            assert(s.drop_first()[j] == s[j + 1]);
        }
        lemma_insert_position_found(s.drop_first(), x, i - 1);
    }
}

proof fn lemma_insert_keeps_sorted(s: Seq<RepositoryRecord>, x: RepositoryRecord)
    requires
        is_sorted_by_stars(s),
    ensures
        is_sorted_by_stars(s.insert(insert_position(s, x) as int, x)),
{
    let p = insert_position(s, x) as int;
    lemma_insert_position(s, x);
    s.insert_ensures(p, x);
    let t = s.insert(p, x);
    assert forall|i: int, j: int| 0 <= i < j < t.len() implies t[i].star_count
        >= t[j].star_count by {
        if j < p {
        } else if j == p {
        } else if i < p {
            assert(t[j] == s[j - 1]);
        } else if i == p {
            assert(t[j] == s[j - 1]);
            assert(s[p].star_count >= s[j - 1].star_count);
        } else {
            assert(t[i] == s[i - 1]);
            assert(t[j] == s[j - 1]);
        }
    }
}

/// The sorted order is sorted by stars.
pub proof fn lemma_sort_is_sorted(s: Seq<RepositoryRecord>)
    ensures
        is_sorted_by_stars(sort_by_stars(s)),
    decreases s.len(),
{
    if s.len() > 0 {
        lemma_sort_is_sorted(s.drop_last());
        lemma_insert_keeps_sorted(sort_by_stars(s.drop_last()), s.last());
    }
}

/// The sorted order holds the same records, each as often.
pub proof fn lemma_sort_is_permutation(s: Seq<RepositoryRecord>)
    ensures
        sort_by_stars(s).to_multiset() =~= s.to_multiset(),
    decreases s.len(),
{
    broadcast use vstd::seq_lib::group_to_multiset_ensures;

    if s.len() > 0 {
        lemma_sort_is_permutation(s.drop_last());
        let rest = sort_by_stars(s.drop_last());
        lemma_insert_position(rest, s.last());
        assert(s.drop_last().push(s.last()) =~= s);
    }
}

/// Orders the records by stars, most first; records with equal stars stay
/// in the order they had in `v`.
pub fn sort_records_by_stars(v: Vec<RepositoryRecord>) -> (r: Vec<RepositoryRecord>)
    ensures
        r@ == sort_by_stars(v@),
{
    let ghost orig = v@;
    let n: usize = v.len();
    let mut rest = v;
    let mut out: Vec<RepositoryRecord> = Vec::new();
    let mut k: usize = 0;
    while rest.len() > 0
        invariant
            k <= orig.len() == n,
            rest@ == orig.subrange(k as int, orig.len() as int),
            out@ == sort_by_stars(orig.subrange(0, k as int)),
        decreases rest.len(),
    {
        let x = rest.remove(0);
        let mut i: usize = 0;
        while i < out.len() && out[i].star_count >= x.star_count
            invariant
                i <= out.len(),
                forall|j: int| 0 <= j < i ==> out@[j].star_count >= x.star_count,
            decreases out.len() - i,
        {
            i = i + 1;
        }
        proof {
            lemma_insert_position_found(out@, x, i as int);
            assert(orig.subrange(0, k as int + 1).drop_last() =~= orig.subrange(0, k as int));
            assert(x == orig[k as int]);
        }
        out.insert(i, x);
        k = k + 1;
    }
    proof {
        assert(orig.subrange(0, k as int) =~= orig);
    }
    out
}

} // verus!
