use repo_stars::aggregate::{aggregate, total_fits, StarTally};
use repo_stars::model::{check_status, AggregationResult, ApiError, RepositoryRecord};
use repo_stars::paging::{page_requests, total_pages, PAGE_SIZE};

fn rec(name: &str, stars: u32) -> RepositoryRecord {
    RepositoryRecord { name: name.to_string(), description: None, star_count: stars }
}

fn names(r: &AggregationResult) -> Vec<String> {
    r.retained_repositories.iter().map(|x| x.name.clone()).collect()
}

fn stars(r: &AggregationResult) -> Vec<u32> {
    r.retained_repositories.iter().map(|x| x.star_count).collect()
}

#[test]
fn declared_250_repositories_take_three_page_requests() {
    assert_eq!(total_pages(250, PAGE_SIZE), 3);
    let plan = page_requests(250);
    assert_eq!(plan, vec![3, 2, 1]);
    let mut sorted = plan.clone();
    sorted.sort();
    assert_eq!(sorted, vec![1, 2, 3]);
}

#[test]
fn page_count_rounds_up() {
    assert_eq!(total_pages(0, 100), 0);
    assert_eq!(total_pages(1, 100), 1);
    assert_eq!(total_pages(100, 100), 1);
    assert_eq!(total_pages(101, 100), 2);
    assert_eq!(total_pages(u32::MAX, 100), 42949673);
    assert_eq!(total_pages(u32::MAX, 1), u32::MAX);
    assert_eq!(page_requests(100), vec![1]);
    assert_eq!(page_requests(101), vec![2, 1]);
}

#[test]
fn no_repositories_means_no_requests_and_empty_result() {
    assert!(page_requests(0).is_empty());
    let r = aggregate(Vec::new(), 1);
    assert!(r.retained_repositories.is_empty());
    assert_eq!(r.total_star_count, 0);
}

#[test]
fn ties_both_retained_low_record_excluded() {
    let pages = vec![vec![rec("a", 5), rec("b", 1), rec("c", 5)]];
    let r = aggregate(pages, 2);
    assert_eq!(stars(&r), vec![5, 5]);
    let mut n = names(&r);
    n.sort();
    assert_eq!(n, vec!["a".to_string(), "c".to_string()]);
    assert_eq!(r.total_star_count, 11);
    // equal counts keep the order in which they came
    assert_eq!(names(&r), vec!["a".to_string(), "c".to_string()]);
}

#[test]
fn retained_are_those_at_or_above_threshold_across_pages() {
    let pages = vec![
        vec![rec("x", 3), rec("y", 10)],
        vec![],
        vec![rec("z", 7), rec("w", 2), rec("v", 3)],
    ];
    let r = aggregate(pages, 3);
    assert_eq!(names(&r), vec!["y", "z", "x", "v"]);
    assert_eq!(stars(&r), vec![10, 7, 3, 3]);
    assert_eq!(r.total_star_count, 25);
}

#[test]
fn total_does_not_depend_on_threshold() {
    let make = || vec![vec![rec("p", 4), rec("q", 0)], vec![rec("r", 9)]];
    for t in [0u32, 1, 5, 10, u32::MAX] {
        let r = aggregate(make(), t);
        assert_eq!(r.total_star_count, 13);
        let kept: u64 = r.retained_repositories.iter().map(|x| x.star_count as u64).sum();
        assert!(kept <= r.total_star_count);
    }
    assert_eq!(aggregate(make(), 0).retained_repositories.len(), 3);
    assert_eq!(aggregate(make(), 10).retained_repositories.len(), 0);
}

#[test]
fn retained_list_is_non_increasing() {
    let pages = vec![vec![rec("a", 1), rec("b", 9), rec("c", 4), rec("d", 9), rec("e", 0)]];
    let r = aggregate(pages, 0);
    assert_eq!(stars(&r), vec![9, 9, 4, 1, 0]);
    assert_eq!(names(&r), vec!["b", "d", "c", "a", "e"]);
}

#[test]
fn tally_counts_each_page() {
    let mut t = StarTally::new();
    t.absorb_page(vec![rec("a", 2), rec("b", 1)], 2);
    assert_eq!(t.total, 3);
    assert_eq!(t.retained.len(), 1);
    t.absorb_page(vec![rec("c", 8)], 2);
    assert_eq!(t.total, 11);
    let r = t.finish();
    assert_eq!(names(&r), vec!["c", "a"]);
    assert_eq!(r.total_star_count, 11);
}

#[test]
fn large_totals_are_checked() {
    let pages = vec![vec![rec("a", u32::MAX), rec("b", u32::MAX)]];
    assert!(total_fits(&pages));
    let r = aggregate(pages, 0);
    assert_eq!(r.total_star_count, 2 * u32::MAX as u64);
    assert!(total_fits(&Vec::new()));
}

#[test]
fn profile_not_found_is_an_http_error() {
    assert_eq!(check_status(404), Err(ApiError::HttpError { status: 404 }));
    assert_eq!(check_status(500), Err(ApiError::HttpError { status: 500 }));
    assert_eq!(check_status(302), Err(ApiError::HttpError { status: 302 }));
    assert_eq!(check_status(199), Err(ApiError::HttpError { status: 199 }));
    assert_eq!(check_status(200), Ok(()));
    assert_eq!(check_status(299), Ok(()));
}
