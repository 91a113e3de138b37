use vstd::prelude::*;
use vstd::string::*;

use crate::model::{AggregationResult, RepositoryRecord};
use crate::plain::{decimal, decimal_string, description_text, total_line};

verus! {

/// What stands before a star count in the count column: a star and a space.
pub open spec fn star_mark() -> Seq<char> {
    seq!['\u{2b50}', '\u{fe0f}', ' ']
}

/// The cells of one repository's row: count, name, description (`-` when
/// it has none).
pub open spec fn table_row(r: RepositoryRecord) -> Seq<Seq<char>> {
    seq![star_mark() + decimal(r.star_count as nat), r.name@, description_text(r.description)]
}

fn row_cells(r: &RepositoryRecord) -> (cells: Vec<String>)
    ensures
        cells@.map_values(|c: String| c@) == table_row(*r),
{
    proof {
        reveal_strlit("\u{2b50}\u{fe0f} ");
        reveal_strlit("-");
    }
    let mut count = String::from_str("\u{2b50}\u{fe0f} ");
    let digits = decimal_string(r.star_count as u64);
    count.append(digits.as_str());
    let name = String::from_str(r.name.as_str());
    let description = match &r.description {
        Some(d) => String::from_str(d.as_str()),
        None => String::from_str("-"),
    };
    let ghost c0 = count@;
    let ghost c1 = name@;
    let ghost c2 = description@;
    proof {
        assert(c0 =~= star_mark() + decimal(r.star_count as nat));
        assert(c1 == r.name@);
        assert(c2 == description_text(r.description));
    }
    let mut cells: Vec<String> = Vec::new();
    cells.push(count);
    cells.push(name);
    cells.push(description);
    proof {
        assert(cells@[0]@ == c0);
        assert(cells@.map_values(|c: String| c@) =~= table_row(*r));
    }
    cells
}

/// The body rows of the table view of `result`, one per retained
/// repository, in order.
pub fn table_rows(result: &AggregationResult) -> (rows: Vec<Vec<String>>)
    ensures
        rows@.len() == result.retained_repositories@.len(),
        forall|i: int|
            0 <= i < rows@.len() ==> (#[trigger] rows@[i])@.map_values(|c: String| c@)
                == table_row(result.retained_repositories@[i]),
{
    let repos = &result.retained_repositories;
    let mut rows: Vec<Vec<String>> = Vec::new();
    let mut i: usize = 0;
    while i < repos.len()
        invariant
            i <= repos@.len(),
            rows@.len() == i,
            forall|j: int|
                0 <= j < i ==> (#[trigger] rows@[j])@.map_values(|c: String| c@) == table_row(
                    repos@[j],
                ),
        decreases repos.len() - i,
    {
        rows.push(row_cells(&repos[i]));
        i = i + 1;
    }
    rows
}

/// The text of the table's closing row: `Total stars: ` and the total.
pub fn total_cell(total: u64) -> (r: String)
    ensures
        r@ == total_line(total as nat),
{
    proof {
        reveal_strlit("Total stars: ");
    }
    let mut text = String::from_str("Total stars: ");
    let digits = decimal_string(total);
    text.append(digits.as_str());
    text
}

} // verus!
