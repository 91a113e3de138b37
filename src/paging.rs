use vstd::prelude::*;

verus! {

/// Number of repository records asked for in one page request.
pub const PAGE_SIZE: u32 = 100;

/// Number of pages needed to cover `count` records at `per_page` records a page.
pub open spec fn pages_needed(count: nat, per_page: nat) -> nat
    recommends
        per_page > 0,
{
    ((count + per_page - 1) as nat) / per_page
}

proof fn lemma_ceil_div(n: int, d: int)
    requires
        n >= 0,
        d > 0,
    ensures
        n % d == 0 ==> (n + d - 1) / d == n / d,
        n % d != 0 ==> (n + d - 1) / d == n / d + 1,
        n % d != 0 ==> n / d < n,
{
    assert(n == d * (n / d) + n % d) by (nonlinear_arith)
        requires
            d > 0,
    ;
    assert(0 <= n % d < d) by (nonlinear_arith)
        requires
            d > 0,
    ;
    if n % d == 0 {
        assert(n + d - 1 == (n / d) * d + (d - 1)) by (nonlinear_arith)
            requires
                n == d * (n / d) + n % d,
                n % d == 0,
        ;
        vstd::arithmetic::div_mod::lemma_fundamental_div_mod_converse(n + d - 1, d, n / d, d - 1);
    } else {
        assert(n + d - 1 == (n / d + 1) * d + (n % d - 1)) by (nonlinear_arith)
            requires
                n == d * (n / d) + n % d,
        ;
        vstd::arithmetic::div_mod::lemma_fundamental_div_mod_converse(
            n + d - 1,
            d,
            n / d + 1,
            n % d - 1,
        );
        assert(n / d < n) by (nonlinear_arith)
            requires
                d > 0,
                n / d >= 0,
                n == d * (n / d) + n % d,
                0 < n % d < d,
        ;
    }
}

/// The number of page requests for a user who declares `public_repo_count`
/// repositories: the ceiling of the count over the page size.
pub fn total_pages(public_repo_count: u32, page_size: u32) -> (r: u32)
    requires
        page_size > 0,
    ensures
        r as nat == pages_needed(public_repo_count as nat, page_size as nat),
{
    let q: u32 = public_repo_count / page_size;
    let m: u32 = public_repo_count % page_size;
    proof {
        lemma_ceil_div(public_repo_count as int, page_size as int);
    }
    if m == 0 {
        q
    } else {
        q + 1
    }
}


/// The pages to request, in the order they are requested: from the last page
/// down to page 1.
pub open spec fn page_order(total: nat) -> Seq<u32> {
    Seq::new(total, |i: int| (total - i) as u32)
}

/// The page numbers to request for a user who declares `public_repo_count`
/// repositories, at `PAGE_SIZE` records a page, last page first. A user with
/// no repositories gets no page request.
pub fn page_requests(public_repo_count: u32) -> (r: Vec<u32>)
    ensures
        r@ == page_order(pages_needed(public_repo_count as nat, PAGE_SIZE as nat)),
{
    let total = total_pages(public_repo_count, PAGE_SIZE);
    let mut out: Vec<u32> = Vec::new();
    let mut p: u32 = total;
    while p > 0
        invariant
            p <= total,
            out@ == page_order(total as nat).subrange(0, (total - p) as int),
        decreases p,
    {
        proof {
            assert(page_order(total as nat).subrange(0, (total - p) as int).push(p)
                =~= page_order(total as nat).subrange(0, (total - p + 1) as int));
        }
        out.push(p);
        p = p - 1;
    }
    proof {
        assert(page_order(total as nat).subrange(0, total as int) =~= page_order(total as nat));
    }
    out
}

} // verus!
