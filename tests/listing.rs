use repo_stars::model::{AggregationResult, RepositoryRecord};
use repo_stars::plain::{decimal_string, parse_entry_line, parse_plain, parse_total_line, render_plain};

fn rec(name: &str, desc: Option<&str>, stars: u32) -> RepositoryRecord {
    RepositoryRecord {
        name: name.to_string(),
        description: desc.map(|d| d.to_string()),
        star_count: stars,
    }
}

fn sample() -> AggregationResult {
    AggregationResult {
        retained_repositories: vec![
            rec("ripgrep", Some("fast search"), 1200),
            rec("fd", None, 35),
            rec("bat", Some("a cat clone"), 7),
        ],
        total_star_count: 1245,
    }
}

#[test]
fn plain_listing_aligns_columns() {
    let lines = render_plain(&sample());
    assert_eq!(
        lines,
        vec![
            "1200  ripgrep  fast search".to_string(),
            "  35  fd       -".to_string(),
            "   7  bat      a cat clone".to_string(),
            "Total stars: 1245".to_string(),
        ]
    );
}

#[test]
fn plain_listing_reads_back() {
    let lines = render_plain(&sample());
    let back = parse_plain(&lines).expect("listing reads back");
    let got: Vec<(u32, String)> =
        back.entries.iter().map(|e| (e.star_count, e.name.clone())).collect();
    assert_eq!(
        got,
        vec![(1200, "ripgrep".to_string()), (35, "fd".to_string()), (7, "bat".to_string())]
    );
    assert_eq!(back.total_star_count, 1245);
}

#[test]
fn empty_listing_has_only_the_total() {
    let r = AggregationResult { retained_repositories: Vec::new(), total_star_count: 0 };
    let lines = render_plain(&r);
    assert_eq!(lines, vec!["Total stars: 0".to_string()]);
    let back = parse_plain(&lines).unwrap();
    assert!(back.entries.is_empty());
    assert_eq!(back.total_star_count, 0);
}

#[test]
fn largest_numbers_read_back() {
    let r = AggregationResult {
        retained_repositories: vec![rec("big", None, u32::MAX)],
        total_star_count: u64::MAX,
    };
    let lines = render_plain(&r);
    assert_eq!(lines[0], "4294967295  big  -");
    assert_eq!(lines[1], "Total stars: 18446744073709551615");
    let back = parse_plain(&lines).unwrap();
    assert_eq!(back.entries[0].star_count, u32::MAX);
    assert_eq!(back.total_star_count, u64::MAX);
}

#[test]
fn malformed_listings_are_refused() {
    assert!(parse_plain(&Vec::new()).is_none());
    assert!(parse_plain(&vec!["Total stars:".to_string()]).is_none());
    assert!(parse_plain(&vec!["Total stars: 12x".to_string()]).is_none());
    assert!(parse_plain(&vec!["total stars: 12".to_string()]).is_none());
    assert!(parse_plain(&vec!["nonsense".to_string(), "Total stars: 1".to_string()]).is_none());
    assert!(parse_total_line(&"Total stars: 18446744073709551616".to_string()).is_none());
    assert!(parse_entry_line(&"4294967296  big  -".to_string()).is_none());
    assert!(parse_entry_line(&"12".to_string()).is_none());
    assert!(parse_entry_line(&"12  ".to_string()).is_none());
}

#[test]
fn entry_lines_read_star_count_and_name() {
    let e = parse_entry_line(&"  42  name  some description".to_string()).unwrap();
    assert_eq!(e.star_count, 42);
    assert_eq!(e.name, "name");
    assert_eq!(parse_total_line(&"Total stars: 907".to_string()), Some(907));
}

#[test]
fn decimal_writing() {
    assert_eq!(decimal_string(0), "0");
    assert_eq!(decimal_string(9), "9");
    assert_eq!(decimal_string(10), "10");
    assert_eq!(decimal_string(1234567890), "1234567890");
    assert_eq!(decimal_string(u64::MAX), "18446744073709551615");
}

#[test]
fn table_cells_hold_count_name_and_description() {
    let rows = repo_stars::table::table_rows(&sample());
    assert_eq!(
        rows,
        vec![
            vec!["⭐️ 1200".to_string(), "ripgrep".to_string(), "fast search".to_string()],
            vec!["⭐️ 35".to_string(), "fd".to_string(), "-".to_string()],
            vec!["⭐️ 7".to_string(), "bat".to_string(), "a cat clone".to_string()],
        ]
    );
    assert_eq!(repo_stars::table::total_cell(1245), "Total stars: 1245");
    assert_eq!(repo_stars::table::total_cell(0), "Total stars: 0");
}
